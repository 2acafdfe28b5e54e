//! The typed data model: value type tags, runtime values, and the schema
//! that maps field paths to declared types.
//!
//! Strings are UTF-8 byte vectors; numbers are IEEE-754 binary64 bit
//! patterns (see [`crate::number`]); instants are microseconds since the
//! Unix epoch, in UTC (see [`crate::datetime`]).

use vstd::prelude::*;
use vstd::string::{StrSliceExecFns, StringSliceAdditionalSpecFns};

verus! {

broadcast use vstd::std_specs::vec::group_vec_axioms;

/// The closed set of value types an operand can have.
#[derive(Clone, Copy, Debug, PartialEq, Eq, Structural)]
pub enum Type {
    String,
    Regex,
    Number,
    Boolean,
    Raw,
    DateTime,
    StringList,
    NumberList,
    BooleanList,
    RawList,
    DateTimeList,
    Null,
}

impl Type {
    pub fn is_null(&self) -> (r: bool)
        ensures
            r == (*self is Null),
    {
        matches!(self, Self::Null)
    }

    /// The name of this type's variant, for diagnostics.
    pub fn variant_name(&self) -> (r: &'static str)
        ensures
            r@ == spec_type_name(*self),
    {
        match self {
            Type::String => "String",
            Type::Regex => "Regex",
            Type::Number => "Number",
            Type::Boolean => "Boolean",
            Type::Raw => "Raw",
            Type::DateTime => "DateTime",
            Type::StringList => "StringList",
            Type::NumberList => "NumberList",
            Type::BooleanList => "BooleanList",
            Type::RawList => "RawList",
            Type::DateTimeList => "DateTimeList",
            Type::Null => "Null",
        }
    }
}

/// The name of each type's variant, as characters.
pub open spec fn spec_type_name(t: Type) -> Seq<char> {
    match t {
        Type::String => "String"@,
        Type::Regex => "Regex"@,
        Type::Number => "Number"@,
        Type::Boolean => "Boolean"@,
        Type::Raw => "Raw"@,
        Type::DateTime => "DateTime"@,
        Type::StringList => "StringList"@,
        Type::NumberList => "NumberList"@,
        Type::BooleanList => "BooleanList"@,
        Type::RawList => "RawList"@,
        Type::DateTimeList => "DateTimeList"@,
        Type::Null => "Null"@,
    }
}

/// A runtime value: a tagged union parallel to [`Type`].
///
/// `String` and `Regex` carry UTF-8 text as bytes; `Number` carries the bit
/// pattern of an IEEE-754 binary64; `DateTime` carries microseconds since
/// the Unix epoch (UTC); `Raw` is an arbitrary byte sequence.
#[derive(Debug)]
pub enum Value {
    String(Vec<u8>),
    Regex(Vec<u8>),
    Number(u64),
    Boolean(bool),
    Raw(Vec<u8>),
    DateTime(i64),
    StringList(Vec<Vec<u8>>),
    NumberList(Vec<u64>),
    BooleanList(Vec<bool>),
    RawList(Vec<Vec<u8>>),
    DateTimeList(Vec<i64>),
    Null,
}

/// Mathematical model of a [`Value`].
pub enum SpecValue {
    String(Seq<u8>),
    Regex(Seq<u8>),
    Number(u64),
    Boolean(bool),
    Raw(Seq<u8>),
    DateTime(i64),
    StringList(Seq<Seq<u8>>),
    NumberList(Seq<u64>),
    BooleanList(Seq<bool>),
    RawList(Seq<Seq<u8>>),
    DateTimeList(Seq<i64>),
    Null,
}

impl DeepView for Value {
    type V = SpecValue;

    open spec fn deep_view(&self) -> SpecValue {
        match self {
            Value::String(v) => SpecValue::String(v@),
            Value::Regex(v) => SpecValue::Regex(v@),
            Value::Number(v) => SpecValue::Number(*v),
            Value::Boolean(v) => SpecValue::Boolean(*v),
            Value::Raw(v) => SpecValue::Raw(v@),
            Value::DateTime(v) => SpecValue::DateTime(*v),
            Value::StringList(v) => SpecValue::StringList(v.deep_view()),
            Value::NumberList(v) => SpecValue::NumberList(v@),
            Value::BooleanList(v) => SpecValue::BooleanList(v@),
            Value::RawList(v) => SpecValue::RawList(v.deep_view()),
            Value::DateTimeList(v) => SpecValue::DateTimeList(v@),
            Value::Null => SpecValue::Null,
        }
    }
}

/// The type tag of a model value.
pub open spec fn spec_value_type(v: SpecValue) -> Type {
    match v {
        SpecValue::String(_) => Type::String,
        SpecValue::Regex(_) => Type::Regex,
        SpecValue::Number(_) => Type::Number,
        SpecValue::Boolean(_) => Type::Boolean,
        SpecValue::Raw(_) => Type::Raw,
        SpecValue::DateTime(_) => Type::DateTime,
        SpecValue::StringList(_) => Type::StringList,
        SpecValue::NumberList(_) => Type::NumberList,
        SpecValue::BooleanList(_) => Type::BooleanList,
        SpecValue::RawList(_) => Type::RawList,
        SpecValue::DateTimeList(_) => Type::DateTimeList,
        SpecValue::Null => Type::Null,
    }
}

impl Clone for Value {
    fn clone(&self) -> (r: Self)
        ensures
            r.deep_view() == self.deep_view(),
    {
        match self {
            Value::String(v) => Value::String(clone_bytes(v)),
            Value::Regex(v) => Value::Regex(clone_bytes(v)),
            Value::Number(v) => Value::Number(*v),
            Value::Boolean(v) => Value::Boolean(*v),
            Value::Raw(v) => Value::Raw(clone_bytes(v)),
            Value::DateTime(v) => Value::DateTime(*v),
            Value::StringList(v) => Value::StringList(clone_byte_lists(v)),
            Value::NumberList(v) => Value::NumberList(clone_scalars(v)),
            Value::BooleanList(v) => Value::BooleanList(clone_scalars(v)),
            Value::RawList(v) => Value::RawList(clone_byte_lists(v)),
            Value::DateTimeList(v) => Value::DateTimeList(clone_scalars(v)),
            Value::Null => Value::Null,
        }
    }
}

/// Clones a byte vector, with its contents pinned down.
pub(crate) fn clone_bytes(v: &Vec<u8>) -> (r: Vec<u8>)
    ensures
        r@ == v@,
{
    let r = v.clone();
    proof {
        assert(r@ =~= v@);
    }
    r
}

/// Copies a vector of `Copy` scalars, with its contents pinned down.
fn clone_scalars<T: Copy>(v: &Vec<T>) -> (r: Vec<T>)
    ensures
        r@ == v@,
{
    let mut r: Vec<T> = Vec::new();
    let mut k: usize = 0;
    while k < v.len()
        invariant
            k <= v.len(),
            r@ =~= v@.take(k as int),
        decreases v.len() - k,
    {
        r.push(v[k]);
        k = k + 1;
    }
    proof {
        assert(r@ =~= v@);
    }
    r
}

/// Clones a vector of byte vectors, with its contents pinned down.
fn clone_byte_lists(v: &Vec<Vec<u8>>) -> (r: Vec<Vec<u8>>)
    ensures
        r.deep_view() == v.deep_view(),
{
    let mut r: Vec<Vec<u8>> = Vec::new();
    let mut k: usize = 0;
    while k < v.len()
        invariant
            k <= v.len(),
            r@.len() == k,
            forall|i: int| 0 <= i < k ==> r@[i]@ == #[trigger] v@[i]@,
        decreases v.len() - k,
    {
        r.push(clone_bytes(&v[k]));
        k = k + 1;
    }
    proof {
        assert(r.deep_view() =~= v.deep_view());
    }
    r
}

impl Value {
    pub fn is_null(&self) -> (r: bool)
        ensures
            r == (self.deep_view() is Null),
    {
        matches!(self, Self::Null)
    }

    /// The type tag of this value.
    pub fn get_type(&self) -> (r: Type)
        ensures
            r == spec_value_type(self.deep_view()),
    {
        match self {
            Value::String(_) => Type::String,
            Value::Regex(_) => Type::Regex,
            Value::Number(_) => Type::Number,
            Value::Boolean(_) => Type::Boolean,
            Value::Raw(_) => Type::Raw,
            Value::DateTime(_) => Type::DateTime,
            Value::StringList(_) => Type::StringList,
            Value::NumberList(_) => Type::NumberList,
            Value::BooleanList(_) => Type::BooleanList,
            Value::RawList(_) => Type::RawList,
            Value::DateTimeList(_) => Type::DateTimeList,
            Value::Null => Type::Null,
        }
    }

    pub fn get_type_name(&self) -> (r: &'static str)
        ensures
            r@ == spec_type_name(spec_value_type(self.deep_view())),
    {
        self.get_type().variant_name()
    }
}

/// A registered field: its declared value type. How a value is obtained
/// from a target is the target's own business (see [`SchemaTarget`]).
#[derive(Clone, Copy, Debug)]
pub struct Field {
    pub field_type: Type,
}

impl Field {
    pub fn new(field_type: Type) -> (r: Self)
        ensures
            r.field_type == field_type,
    {
        Self { field_type }
    }
}

/// The source of field values for [`crate::engine::Engine::execute`]: a
/// record type declares, per field path, what value it currently holds.
/// `None` stands for an absent value; the engine reads it as null.
///
/// An implementation outside this crate is not verified against
/// `field_value`; the engine's contract holds for targets whose
/// `extract` honours it.
pub trait SchemaTarget {
    /// The value this target yields for a field path, if any.
    spec fn field_value(&self, path: Seq<u8>) -> Option<SpecValue>;

    /// Yield the value for `path`, `None` for an absent value.
    fn extract(&self, path: &[u8]) -> (r: Option<Value>)
        ensures
            (match r {
                Some(v) => self.field_value(path@) == Some(v.deep_view()),
                None => self.field_value(path@) is None,
            }),
    ;
}

/// The mapping a field list denotes: later entries win, as with repeated
/// inserts into a map.
pub open spec fn spec_fields_map(s: Seq<(Vec<u8>, Field)>) -> Map<Seq<u8>, Type>
    decreases s.len(),
{
    if s.len() == 0 {
        Map::empty()
    } else {
        spec_fields_map(s.drop_last()).insert(s.last().0@, s.last().1.field_type)
    }
}

/// Lookup in a field list: the last entry for the key wins.
pub open spec fn spec_fields_lookup(s: Seq<(Vec<u8>, Field)>, k: Seq<u8>) -> Option<Type>
    decreases s.len(),
{
    if s.len() == 0 {
        None
    } else if s.last().0@ == k {
        Some(s.last().1.field_type)
    } else {
        spec_fields_lookup(s.drop_last(), k)
    }
}

/// List lookup agrees with the map the list denotes.
pub proof fn lemma_fields_lookup_map(s: Seq<(Vec<u8>, Field)>, k: Seq<u8>)
    ensures
        spec_fields_lookup(s, k) == (if spec_fields_map(s).contains_key(k) {
            Some(spec_fields_map(s)[k])
        } else {
            Option::<Type>::None
        }),
    decreases s.len(),
{
    if s.len() > 0 {
        lemma_fields_lookup_map(s.drop_last(), k);
    }
}


/// The map a schema gains when a sub-schema is flattened under a
/// prefix: every field `F` of the sub-schema appears at `prefix + F`
/// (shadowing anything the base map held there); every other key keeps
/// its base entry.
pub open spec fn spec_sub_fields_map(
    prefix: Seq<u8>,
    sub: Map<Seq<u8>, Type>,
    base: Map<Seq<u8>, Type>,
) -> Map<Seq<u8>, Type> {
    Map::new(
        |k: Seq<u8>|
            base.contains_key(k) || (k.len() >= prefix.len() && k.subrange(
                0,
                prefix.len() as int,
            ) == prefix && sub.contains_key(k.skip(prefix.len() as int))),
        |k: Seq<u8>|
            if k.len() >= prefix.len() && k.subrange(0, prefix.len() as int) == prefix
                && sub.contains_key(k.skip(prefix.len() as int)) {
                sub[k.skip(prefix.len() as int)]
            } else {
                base[k]
            },
    )
}

/// Flattening nothing changes nothing.
proof fn lemma_sub_fields_empty(prefix: Seq<u8>, base: Map<Seq<u8>, Type>)
    ensures
        spec_sub_fields_map(prefix, Map::<Seq<u8>, Type>::empty(), base) == base,
{
    assert(spec_sub_fields_map(prefix, Map::<Seq<u8>, Type>::empty(), base) =~= base);
}

/// Flattening one more sub-field is one more insert under the prefix.
proof fn lemma_sub_fields_insert(
    prefix: Seq<u8>,
    sub: Map<Seq<u8>, Type>,
    base: Map<Seq<u8>, Type>,
    f: Seq<u8>,
    t: Type,
)
    ensures
        spec_sub_fields_map(prefix, sub, base).insert(prefix + f, t) == spec_sub_fields_map(
            prefix,
            sub.insert(f, t),
            base,
        ),
{
    assert((prefix + f).subrange(0, prefix.len() as int) =~= prefix);
    assert((prefix + f).skip(prefix.len() as int) =~= f);
    assert forall|k: Seq<u8>|
        k.len() >= prefix.len() && k.subrange(0, prefix.len() as int) == prefix && k != prefix
            + f implies k.skip(prefix.len() as int) != f by {
        if k.skip(prefix.len() as int) == f {
            assert(k =~= prefix + f);
        }
    }
    assert(spec_sub_fields_map(prefix, sub, base).insert(prefix + f, t) =~= spec_sub_fields_map(
        prefix,
        sub.insert(f, t),
        base,
    ));
}

/// Appends all of `src` to `dst`.
fn append_bytes(dst: &mut Vec<u8>, src: &Vec<u8>)
    ensures
        final(dst)@ == old(dst)@ + src@,
{
    let mut k: usize = 0;
    while k < src.len()
        invariant
            k <= src@.len(),
            dst@ == old(dst)@ + src@.take(k as int),
        decreases src@.len() - k,
    {
        dst.push(src[k]);
        proof {
            assert(old(dst)@ + src@.take(k + 1 as int) =~= (old(dst)@ + src@.take(
                k as int,
            )).push(src@[k as int]));
        }
        k = k + 1;
    }
    proof {
        assert(src@.take(src@.len() as int) =~= src@);
    }
}

/// Builds a [`Schema`]: one registration operation per supported field
/// type plus sub-schema flattening. Later registrations under the same
/// name replace earlier ones.
#[derive(Debug)]
pub struct SchemaBuilder {
    fields: Vec<(Vec<u8>, Field)>,
}

impl View for SchemaBuilder {
    type V = Map<Seq<u8>, Type>;

    closed spec fn view(&self) -> Map<Seq<u8>, Type> {
        spec_fields_map(self.fields@)
    }
}

impl SchemaBuilder {
    pub fn new() -> (r: Self)
        ensures
            r@ == Map::<Seq<u8>, Type>::empty(),
    {
        Self { fields: Vec::new() }
    }

    /// Registers `field_name` with the given type.
    fn with_field(self, field_name: &str, field_type: Type) -> (r: Self)
        ensures
            r@ == self@.insert(field_name.spec_bytes(), field_type),
    {
        let mut fields = self.fields;
        let ghost orig = fields@;
        let name = field_name.as_bytes_vec();
        fields.push((name, Field::new(field_type)));
        proof {
            assert(fields@.drop_last() =~= orig);
        }
        Self { fields }
    }

    pub fn with_string_field(self, field_name: &str) -> (r: Self)
        ensures
            r@ == self@.insert(field_name.spec_bytes(), Type::String),
    {
        self.with_field(field_name, Type::String)
    }

    pub fn with_number_field(self, field_name: &str) -> (r: Self)
        ensures
            r@ == self@.insert(field_name.spec_bytes(), Type::Number),
    {
        self.with_field(field_name, Type::Number)
    }

    pub fn with_boolean_field(self, field_name: &str) -> (r: Self)
        ensures
            r@ == self@.insert(field_name.spec_bytes(), Type::Boolean),
    {
        self.with_field(field_name, Type::Boolean)
    }

    pub fn with_raw_field(self, field_name: &str) -> (r: Self)
        ensures
            r@ == self@.insert(field_name.spec_bytes(), Type::Raw),
    {
        self.with_field(field_name, Type::Raw)
    }

    pub fn with_datetime_field(self, field_name: &str) -> (r: Self)
        ensures
            r@ == self@.insert(field_name.spec_bytes(), Type::DateTime),
    {
        self.with_field(field_name, Type::DateTime)
    }

    pub fn with_string_list_field(self, field_name: &str) -> (r: Self)
        ensures
            r@ == self@.insert(field_name.spec_bytes(), Type::StringList),
    {
        self.with_field(field_name, Type::StringList)
    }

    pub fn with_number_list_field(self, field_name: &str) -> (r: Self)
        ensures
            r@ == self@.insert(field_name.spec_bytes(), Type::NumberList),
    {
        self.with_field(field_name, Type::NumberList)
    }

    pub fn with_boolean_list_field(self, field_name: &str) -> (r: Self)
        ensures
            r@ == self@.insert(field_name.spec_bytes(), Type::BooleanList),
    {
        self.with_field(field_name, Type::BooleanList)
    }

    pub fn with_raw_list_field(self, field_name: &str) -> (r: Self)
        ensures
            r@ == self@.insert(field_name.spec_bytes(), Type::RawList),
    {
        self.with_field(field_name, Type::RawList)
    }

    pub fn with_datetime_list_field(self, field_name: &str) -> (r: Self)
        ensures
            r@ == self@.insert(field_name.spec_bytes(), Type::DateTimeList),
    {
        self.with_field(field_name, Type::DateTimeList)
    }

    /// Flattens a sub-schema under `field_name`: every field `F` of it
    /// is registered here as `field_name:F`, with its declared type.
    pub fn with_sub_field(self, field_name: &str, sub_schema: &Schema) -> (r: Self)
        ensures
            r@ == spec_sub_fields_map(
                field_name.spec_bytes() + seq![58u8],
                sub_schema@,
                self@,
            ),
    {
        let ghost base = self@;
        let mut prefix: Vec<u8> = field_name.as_bytes_vec();
        prefix.push(58);
        proof {
            assert(prefix@ =~= field_name.spec_bytes() + seq![58u8]);
        }
        let mut fields = self.fields;
        let mut k: usize = 0;
        while k < sub_schema.fields.len()
            invariant
                k <= sub_schema.fields@.len(),
                prefix@ == field_name.spec_bytes() + seq![58u8],
                spec_fields_map(fields@) == spec_sub_fields_map(
                    prefix@,
                    spec_fields_map(sub_schema.fields@.take(k as int)),
                    base,
                ),
            decreases sub_schema.fields@.len() - k,
        {
            let ghost fold_k = spec_fields_map(sub_schema.fields@.take(k as int));
            let mut name = clone_bytes(&prefix);
            append_bytes(&mut name, &sub_schema.fields[k].0);
            let ghost orig = fields@;
            fields.push((name, sub_schema.fields[k].1));
            proof {
                assert(fields@.drop_last() =~= orig);
                assert(sub_schema.fields@.take(k + 1 as int).drop_last()
                    =~= sub_schema.fields@.take(k as int));
                assert(sub_schema.fields@.take(k + 1 as int).last()
                    == sub_schema.fields@[k as int]);
                lemma_sub_fields_insert(
                    prefix@,
                    fold_k,
                    base,
                    sub_schema.fields@[k as int].0@,
                    sub_schema.fields@[k as int].1.field_type,
                );
            }
            k = k + 1;
        }
        proof {
            assert(sub_schema.fields@.take(sub_schema.fields@.len() as int)
                =~= sub_schema.fields@);
            lemma_sub_fields_empty(prefix@, base);
            assert(spec_fields_map(Seq::<(Vec<u8>, Field)>::empty())
                =~= Map::<Seq<u8>, Type>::empty());
        }
        Self { fields }
    }

    pub fn build(self) -> (r: Schema)
        ensures
            r@ == self@,
    {
        Schema { fields: self.fields }
    }
}

/// An immutable registry mapping field paths to declared types.
#[derive(Debug)]
pub struct Schema {
    fields: Vec<(Vec<u8>, Field)>,
}

impl View for Schema {
    type V = Map<Seq<u8>, Type>;

    closed spec fn view(&self) -> Map<Seq<u8>, Type> {
        spec_fields_map(self.fields@)
    }
}

impl Schema {
    /// The field registered under `field_name`, or `None`.
    pub fn get_field(&self, field_name: &str) -> (r: Option<Field>)
        ensures
            (match r {
                Some(f) => self@.contains_key(field_name.spec_bytes()) && f.field_type
                    == self@[field_name.spec_bytes()],
                None => !self@.contains_key(field_name.spec_bytes()),
            }),
    {
        self.get_field_bytes(field_name.as_bytes())
    }

    /// The field registered under the byte form of a field path.
    pub fn get_field_bytes(&self, field_name: &[u8]) -> (r: Option<Field>)
        ensures
            (match r {
                Some(f) => self@.contains_key(field_name@) && f.field_type
                    == self@[field_name@],
                None => !self@.contains_key(field_name@),
            }),
    {
        proof {
            assert(self.fields@.take(self.fields@.len() as int) =~= self.fields@);
        }
        let mut j: usize = self.fields.len();
        while j > 0
            invariant
                j <= self.fields@.len(),
                spec_fields_lookup(self.fields@, field_name@) == spec_fields_lookup(
                    self.fields@.take(j as int),
                    field_name@,
                ),
            decreases j,
        {
            j = j - 1;
            if bytes_equal(&self.fields[j].0, field_name) {
                proof {
                    assert(self.fields@.take(j + 1 as int).last() == self.fields@[j as int]);
                    lemma_fields_lookup_map(self.fields@, field_name@);
                }
                return Some(self.fields[j].1);
            }
            proof {
                assert(self.fields@.take(j + 1 as int).last() == self.fields@[j as int]);
                assert(self.fields@.take(j + 1 as int).drop_last() =~= self.fields@.take(
                    j as int,
                ));
            }
        }
        proof {
            assert(self.fields@.take(0) =~= Seq::<(Vec<u8>, Field)>::empty());
            lemma_fields_lookup_map(self.fields@, field_name@);
        }
        None
    }
}

/// Byte-for-byte equality of a vector and a slice.
pub fn bytes_equal(a: &Vec<u8>, b: &[u8]) -> (r: bool)
    ensures
        r == (a@ == b@),
{
    if a.len() != b.len() {
        proof {
            assert(a@ != b@);
        }
        return false;
    }
    let mut i: usize = 0;
    while i < a.len()
        invariant
            i <= a@.len(),
            a@.len() == b@.len(),
            forall|j: int| 0 <= j < i ==> a@[j] == b@[j],
        decreases a.len() - i,
    {
        if a[i] != b[i] {
            return false;
        }
        i = i + 1;
    }
    proof {
        assert(a@ =~= b@);
    }
    true
}

/// Lookup in a value list: the last entry for the key wins.
pub open spec fn spec_values_lookup(s: Seq<(Vec<u8>, Value)>, k: Seq<u8>) -> Option<SpecValue>
    decreases s.len(),
{
    if s.len() == 0 {
        None
    } else if s.last().0@ == k {
        Some(s.last().1.deep_view())
    } else {
        spec_values_lookup(s.drop_last(), k)
    }
}

/// A ready-made [`SchemaTarget`]: a record held as data, field path to
/// value. Code outside this crate builds one instead of implementing
/// the trait itself. A path with no entry reads as an absent value.
#[derive(Debug)]
pub struct FieldValues {
    entries: Vec<(Vec<u8>, Value)>,
}

impl FieldValues {
    pub fn new() -> (r: Self)
        ensures
            forall|p: Seq<u8>| r.field_value(p) is None,
    {
        Self { entries: Vec::new() }
    }

    /// Adds a value under a field path; a later entry for the same path
    /// wins.
    pub fn with_value(self, field_name: &str, value: Value) -> (r: Self)
        ensures
            r.field_value(field_name.spec_bytes()) == Some(value.deep_view()),
            forall|p: Seq<u8>|
                p != field_name.spec_bytes() ==> #[trigger] r.field_value(p)
                    == self.field_value(p),
    {
        let mut entries = self.entries;
        let ghost orig = entries@;
        let name = field_name.as_bytes_vec();
        entries.push((name, value));
        proof {
            assert(entries@.drop_last() =~= orig);
            assert forall|p: Seq<u8>|
                p != field_name.spec_bytes() implies spec_values_lookup(entries@, p)
                == spec_values_lookup(orig, p) by {
                assert(entries@.last().0@ == field_name.spec_bytes());
            }
        }
        Self { entries }
    }
}

impl SchemaTarget for FieldValues {
    closed spec fn field_value(&self, path: Seq<u8>) -> Option<SpecValue> {
        spec_values_lookup(self.entries@, path)
    }

    fn extract(&self, path: &[u8]) -> (r: Option<Value>)
        ensures
            (match r {
                Some(v) => self.field_value(path@) == Some(v.deep_view()),
                None => self.field_value(path@) is None,
            }),
    {
        proof {
            assert(self.entries@.take(self.entries@.len() as int) =~= self.entries@);
        }
        let mut j: usize = self.entries.len();
        while j > 0
            invariant
                j <= self.entries@.len(),
                spec_values_lookup(self.entries@, path@) == spec_values_lookup(
                    self.entries@.take(j as int),
                    path@,
                ),
            decreases j,
        {
            j = j - 1;
            if bytes_equal(&self.entries[j].0, path) {
                proof {
                    assert(self.entries@.take(j + 1 as int).last() == self.entries@[j as int]);
                }
                return Some(self.entries[j].1.clone());
            }
            proof {
                assert(self.entries@.take(j + 1 as int).last() == self.entries@[j as int]);
                assert(self.entries@.take(j + 1 as int).drop_last() =~= self.entries@.take(
                    j as int,
                ));
            }
        }
        proof {
            assert(self.entries@.take(0) =~= Seq::<(Vec<u8>, Value)>::empty());
        }
        None
    }
}

} // verus!
