//! Logical data types, fields, and the physical classes they are stored under.

use vstd::prelude::*;

verus! {

/// The unit of a time-like logical type.
#[derive(Clone, Copy, Debug, PartialEq, Eq, Structural)]
pub enum TimeUnit {
    Second,
    Millisecond,
    Microsecond,
    Nanosecond,
}

/// The unit of an interval.
#[derive(Clone, Copy, Debug, PartialEq, Eq, Structural)]
pub enum IntervalUnit {
    YearMonth,
    DayTime,
    MonthDayNano,
}

/// The integer types that can key a dictionary.
#[derive(Clone, Copy, Debug, PartialEq, Eq, Structural)]
pub enum IntegerType {
    Int8,
    Int16,
    Int32,
    Int64,
    UInt8,
    UInt16,
    UInt32,
    UInt64,
}

/// How the children of a union are laid out.
#[derive(Clone, Copy, Debug, PartialEq, Eq, Structural)]
pub enum UnionMode {
    Dense,
    Sparse,
}

/// The fixed-width native types a primitive array can hold.
#[derive(Clone, Copy, Debug, PartialEq, Eq, Structural)]
pub enum PrimitiveType {
    Int8,
    Int16,
    Int32,
    Int64,
    Int128,
    Int256,
    UInt8,
    UInt16,
    UInt32,
    UInt64,
    Float16,
    Float32,
    Float64,
    DaysMs,
    MonthDayNano,
}

/// The in-memory class of a logical type: what kind of array holds it.
#[derive(Clone, Copy, Debug, PartialEq, Eq, Structural)]
pub enum PhysicalType {
    Null,
    Boolean,
    Primitive(PrimitiveType),
    Binary,
    FixedSizeBinary,
    LargeBinary,
    Utf8,
    LargeUtf8,
    List,
    FixedSizeList,
    LargeList,
    Struct,
    Union,
    MapOf,
    Dictionary(IntegerType),
}

/// A logical data type: a node of the schema tree.
#[derive(Debug, PartialEq, Eq)]
pub enum DataType {
    Null,
    Boolean,
    Int8,
    Int16,
    Int32,
    Int64,
    UInt8,
    UInt16,
    UInt32,
    UInt64,
    Float16,
    Float32,
    Float64,
    /// A point in time, with an optional time zone.
    Timestamp(TimeUnit, Option<String>),
    Date32,
    Date64,
    Time32(TimeUnit),
    Time64(TimeUnit),
    Duration(TimeUnit),
    Interval(IntervalUnit),
    Binary,
    /// Byte strings of one fixed length.
    FixedSizeBinary(usize),
    LargeBinary,
    Utf8,
    LargeUtf8,
    List(Box<Field>),
    /// Lists that all hold the same number of items.
    FixedSizeList(Box<Field>, usize),
    LargeList(Box<Field>),
    Struct(Vec<Field>),
    Union(Vec<Field>, UnionMode),
    /// A list of key/value entries; the flag says whether keys are sorted.
    MapOf(Box<Field>, bool),
    /// Values stored once and referenced by integer keys; the flag says
    /// whether the values are sorted.
    Dictionary(IntegerType, Box<DataType>, bool),
    /// Precision and scale of a 128-bit decimal.
    Decimal(usize, usize),
    /// Precision and scale of a 256-bit decimal.
    Decimal256(usize, usize),
    /// A named wrapper around another type, with optional metadata.
    Extension(String, Box<DataType>, Option<String>),
}

/// A named, possibly nullable, node of the schema.
#[derive(Debug, PartialEq, Eq)]
pub struct Field {
    pub name: String,
    pub data_type: DataType,
    pub is_nullable: bool,
}

/// The mathematical value of a [`DataType`].
pub enum DataTypeView {
    Null,
    Boolean,
    Int8,
    Int16,
    Int32,
    Int64,
    UInt8,
    UInt16,
    UInt32,
    UInt64,
    Float16,
    Float32,
    Float64,
    Timestamp(TimeUnit, Option<Seq<char>>),
    Date32,
    Date64,
    Time32(TimeUnit),
    Time64(TimeUnit),
    Duration(TimeUnit),
    Interval(IntervalUnit),
    Binary,
    FixedSizeBinary(usize),
    LargeBinary,
    Utf8,
    LargeUtf8,
    List(Box<FieldView>),
    FixedSizeList(Box<FieldView>, usize),
    LargeList(Box<FieldView>),
    Struct(Seq<FieldView>),
    Union(Seq<FieldView>, UnionMode),
    MapOf(Box<FieldView>, bool),
    Dictionary(IntegerType, Box<DataTypeView>, bool),
    Decimal(usize, usize),
    Decimal256(usize, usize),
    Extension(Seq<char>, Box<DataTypeView>, Option<Seq<char>>),
}

/// The mathematical value of a [`Field`].
pub struct FieldView {
    pub name: Seq<char>,
    pub data_type: DataTypeView,
    pub is_nullable: bool,
}

pub open spec fn opt_string_view(s: Option<String>) -> Option<Seq<char>> {
    match s {
        Some(s) => Some(s@),
        None => None,
    }
}

pub open spec fn fields_view(fields: Seq<Field>) -> Seq<FieldView> {
    Seq::new(fields.len(), |i: int| field_view(fields[i]))
}

pub open spec fn field_view(f: Field) -> FieldView {
    FieldView { name: f.name@, data_type: data_type_view(f.data_type), is_nullable: f.is_nullable }
}

pub open spec fn data_type_view(dt: DataType) -> DataTypeView
    decreases dt,
{
    match dt {
        DataType::Null => DataTypeView::Null,
        DataType::Boolean => DataTypeView::Boolean,
        DataType::Int8 => DataTypeView::Int8,
        DataType::Int16 => DataTypeView::Int16,
        DataType::Int32 => DataTypeView::Int32,
        DataType::Int64 => DataTypeView::Int64,
        DataType::UInt8 => DataTypeView::UInt8,
        DataType::UInt16 => DataTypeView::UInt16,
        DataType::UInt32 => DataTypeView::UInt32,
        DataType::UInt64 => DataTypeView::UInt64,
        DataType::Float16 => DataTypeView::Float16,
        DataType::Float32 => DataTypeView::Float32,
        DataType::Float64 => DataTypeView::Float64,
        DataType::Timestamp(unit, tz) => DataTypeView::Timestamp(unit, opt_string_view(tz)),
        DataType::Date32 => DataTypeView::Date32,
        DataType::Date64 => DataTypeView::Date64,
        DataType::Time32(unit) => DataTypeView::Time32(unit),
        DataType::Time64(unit) => DataTypeView::Time64(unit),
        DataType::Duration(unit) => DataTypeView::Duration(unit),
        DataType::Interval(unit) => DataTypeView::Interval(unit),
        DataType::Binary => DataTypeView::Binary,
        DataType::FixedSizeBinary(n) => DataTypeView::FixedSizeBinary(n),
        DataType::LargeBinary => DataTypeView::LargeBinary,
        DataType::Utf8 => DataTypeView::Utf8,
        DataType::LargeUtf8 => DataTypeView::LargeUtf8,
        DataType::List(inner) => DataTypeView::List(
            Box::new(
                FieldView {
                    name: inner.name@,
                    data_type: data_type_view(inner.data_type),
                    is_nullable: inner.is_nullable,
                },
            ),
        ),
        DataType::FixedSizeList(inner, n) => DataTypeView::FixedSizeList(
            Box::new(
                FieldView {
                    name: inner.name@,
                    data_type: data_type_view(inner.data_type),
                    is_nullable: inner.is_nullable,
                },
            ),
            n,
        ),
        DataType::LargeList(inner) => DataTypeView::LargeList(
            Box::new(
                FieldView {
                    name: inner.name@,
                    data_type: data_type_view(inner.data_type),
                    is_nullable: inner.is_nullable,
                },
            ),
        ),
        DataType::Struct(fields) => DataTypeView::Struct(
            Seq::new(
                fields.len() as nat,
                |i: int|
                    if 0 <= i < fields.len() {
                        FieldView {
                            name: fields[i].name@,
                            data_type: data_type_view(fields[i].data_type),
                            is_nullable: fields[i].is_nullable,
                        }
                    } else {
                        arbitrary()
                    },
            ),
        ),
        DataType::Union(fields, mode) => DataTypeView::Union(
            Seq::new(
                fields.len() as nat,
                |i: int|
                    if 0 <= i < fields.len() {
                        FieldView {
                            name: fields[i].name@,
                            data_type: data_type_view(fields[i].data_type),
                            is_nullable: fields[i].is_nullable,
                        }
                    } else {
                        arbitrary()
                    },
            ),
            mode,
        ),
        DataType::MapOf(inner, sorted) => DataTypeView::MapOf(
            Box::new(
                FieldView {
                    name: inner.name@,
                    data_type: data_type_view(inner.data_type),
                    is_nullable: inner.is_nullable,
                },
            ),
            sorted,
        ),
        DataType::Dictionary(key, values, sorted) => DataTypeView::Dictionary(
            key,
            Box::new(data_type_view(*values)),
            sorted,
        ),
        DataType::Decimal(p, s) => DataTypeView::Decimal(p, s),
        DataType::Decimal256(p, s) => DataTypeView::Decimal256(p, s),
        DataType::Extension(name, inner, meta) => DataTypeView::Extension(
            name@,
            Box::new(data_type_view(*inner)),
            opt_string_view(meta),
        ),
    }
}

impl View for DataType {
    type V = DataTypeView;

    open spec fn view(&self) -> DataTypeView {
        data_type_view(*self)
    }
}

impl View for Field {
    type V = FieldView;

    open spec fn view(&self) -> FieldView {
        field_view(*self)
    }
}


impl DataTypeView {
    /// The type with every extension wrapper taken off.
    pub open spec fn to_logical_type(self) -> DataTypeView
        decreases self,
    {
        match self {
            DataTypeView::Extension(_, inner, _) => inner.to_logical_type(),
            _ => self,
        }
    }

    /// The class of array that holds values of this type.
    pub open spec fn to_physical_type(self) -> PhysicalType
        decreases self,
    {
        match self {
            DataTypeView::Null => PhysicalType::Null,
            DataTypeView::Boolean => PhysicalType::Boolean,
            DataTypeView::Int8 => PhysicalType::Primitive(PrimitiveType::Int8),
            DataTypeView::Int16 => PhysicalType::Primitive(PrimitiveType::Int16),
            DataTypeView::Int32
            | DataTypeView::Date32
            | DataTypeView::Time32(_)
            | DataTypeView::Interval(IntervalUnit::YearMonth) => PhysicalType::Primitive(
                PrimitiveType::Int32,
            ),
            DataTypeView::Int64
            | DataTypeView::Date64
            | DataTypeView::Timestamp(_, _)
            | DataTypeView::Time64(_)
            | DataTypeView::Duration(_) => PhysicalType::Primitive(PrimitiveType::Int64),
            DataTypeView::Decimal(_, _) => PhysicalType::Primitive(PrimitiveType::Int128),
            DataTypeView::Decimal256(_, _) => PhysicalType::Primitive(PrimitiveType::Int256),
            DataTypeView::UInt8 => PhysicalType::Primitive(PrimitiveType::UInt8),
            DataTypeView::UInt16 => PhysicalType::Primitive(PrimitiveType::UInt16),
            DataTypeView::UInt32 => PhysicalType::Primitive(PrimitiveType::UInt32),
            DataTypeView::UInt64 => PhysicalType::Primitive(PrimitiveType::UInt64),
            DataTypeView::Float16 => PhysicalType::Primitive(PrimitiveType::Float16),
            DataTypeView::Float32 => PhysicalType::Primitive(PrimitiveType::Float32),
            DataTypeView::Float64 => PhysicalType::Primitive(PrimitiveType::Float64),
            DataTypeView::Interval(IntervalUnit::DayTime) => PhysicalType::Primitive(
                PrimitiveType::DaysMs,
            ),
            DataTypeView::Interval(IntervalUnit::MonthDayNano) => PhysicalType::Primitive(
                PrimitiveType::MonthDayNano,
            ),
            DataTypeView::Binary => PhysicalType::Binary,
            DataTypeView::FixedSizeBinary(_) => PhysicalType::FixedSizeBinary,
            DataTypeView::LargeBinary => PhysicalType::LargeBinary,
            DataTypeView::Utf8 => PhysicalType::Utf8,
            DataTypeView::LargeUtf8 => PhysicalType::LargeUtf8,
            DataTypeView::List(_) => PhysicalType::List,
            DataTypeView::FixedSizeList(_, _) => PhysicalType::FixedSizeList,
            DataTypeView::LargeList(_) => PhysicalType::LargeList,
            DataTypeView::Struct(_) => PhysicalType::Struct,
            DataTypeView::Union(_, _) => PhysicalType::Union,
            DataTypeView::MapOf(_, _) => PhysicalType::MapOf,
            DataTypeView::Dictionary(key, _, _) => PhysicalType::Dictionary(key),
            DataTypeView::Extension(_, inner, _) => inner.to_physical_type(),
        }
    }

    /// The number of flattened leaf columns that a subtree of this type owns:
    /// one for a type without children, the sum over the children otherwise.
    pub open spec fn n_columns(self) -> nat
        decreases self,
    {
        match self {
            DataTypeView::List(inner)
            | DataTypeView::LargeList(inner)
            | DataTypeView::FixedSizeList(inner, _)
            | DataTypeView::MapOf(inner, _) => inner.data_type.n_columns(),
            DataTypeView::Struct(fields) | DataTypeView::Union(fields, _) => fields_n_columns(
                fields,
            ),
            DataTypeView::Extension(_, inner, _) => inner.n_columns(),
            _ => 1,
        }
    }
}

/// The number of leaf columns that a sequence of fields owns together.
pub open spec fn fields_n_columns(fields: Seq<FieldView>) -> nat
    decreases fields,
{
    if fields.len() == 0 {
        0
    } else {
        fields_n_columns(fields.drop_last()) + fields.last().data_type.n_columns()
    }
}

/// The view of a struct or union type lists the views of its fields.
pub proof fn lemma_fields_view(fields: Vec<Field>)
    ensures
        forall|mode: UnionMode|
            #[trigger] data_type_view(DataType::Union(fields, mode)) == DataTypeView::Union(
                fields_view(fields@),
                mode,
            ),
        data_type_view(DataType::Struct(fields)) == DataTypeView::Struct(fields_view(fields@)),
{
    assert(data_type_view(DataType::Struct(fields))->Struct_0 =~= fields_view(fields@));
    assert forall|mode: UnionMode|
        #[trigger] data_type_view(DataType::Union(fields, mode)) == DataTypeView::Union(
            fields_view(fields@),
            mode,
        ) by {
        assert(data_type_view(DataType::Union(fields, mode))->Union_0 =~= fields_view(fields@));
    }
}

impl Clone for DataType {
    fn clone(&self) -> (res: Self)
        ensures
            res@ == self@,
        decreases self,
    {
        match self {
            DataType::Null => DataType::Null,
            DataType::Boolean => DataType::Boolean,
            DataType::Int8 => DataType::Int8,
            DataType::Int16 => DataType::Int16,
            DataType::Int32 => DataType::Int32,
            DataType::Int64 => DataType::Int64,
            DataType::UInt8 => DataType::UInt8,
            DataType::UInt16 => DataType::UInt16,
            DataType::UInt32 => DataType::UInt32,
            DataType::UInt64 => DataType::UInt64,
            DataType::Float16 => DataType::Float16,
            DataType::Float32 => DataType::Float32,
            DataType::Float64 => DataType::Float64,
            DataType::Timestamp(unit, tz) => DataType::Timestamp(*unit, clone_opt_string(tz)),
            DataType::Date32 => DataType::Date32,
            DataType::Date64 => DataType::Date64,
            DataType::Time32(unit) => DataType::Time32(*unit),
            DataType::Time64(unit) => DataType::Time64(*unit),
            DataType::Duration(unit) => DataType::Duration(*unit),
            DataType::Interval(unit) => DataType::Interval(*unit),
            DataType::Binary => DataType::Binary,
            DataType::FixedSizeBinary(n) => DataType::FixedSizeBinary(*n),
            DataType::LargeBinary => DataType::LargeBinary,
            DataType::Utf8 => DataType::Utf8,
            DataType::LargeUtf8 => DataType::LargeUtf8,
            DataType::List(inner) => DataType::List(Box::new((**inner).clone())),
            DataType::FixedSizeList(inner, n) => DataType::FixedSizeList(
                Box::new((**inner).clone()),
                *n,
            ),
            DataType::LargeList(inner) => DataType::LargeList(Box::new((**inner).clone())),
            DataType::Struct(fields) => {
                let copy = clone_fields(fields);
                proof {
                    lemma_fields_view(*fields);
                    lemma_fields_view(copy);
                }
                DataType::Struct(copy)
            },
            DataType::Union(fields, mode) => {
                let copy = clone_fields(fields);
                proof {
                    lemma_fields_view(*fields);
                    lemma_fields_view(copy);
                }
                DataType::Union(copy, *mode)
            },
            DataType::MapOf(inner, sorted) => DataType::MapOf(
                Box::new((**inner).clone()),
                *sorted,
            ),
            DataType::Dictionary(key, values, sorted) => DataType::Dictionary(
                *key,
                Box::new((**values).clone()),
                *sorted,
            ),
            DataType::Decimal(p, s) => DataType::Decimal(*p, *s),
            DataType::Decimal256(p, s) => DataType::Decimal256(*p, *s),
            DataType::Extension(name, inner, meta) => DataType::Extension(
                name.clone(),
                Box::new((**inner).clone()),
                clone_opt_string(meta),
            ),
        }
    }
}

impl Clone for Field {
    fn clone(&self) -> (res: Self)
        ensures
            res@ == self@,
        decreases self,
    {
        Field {
            name: self.name.clone(),
            data_type: self.data_type.clone(),
            is_nullable: self.is_nullable,
        }
    }
}

fn clone_opt_string(s: &Option<String>) -> (res: Option<String>)
    ensures
        opt_string_view(res) == opt_string_view(*s),
{
    match s {
        Some(s) => Some(s.clone()),
        None => None,
    }
}

/// A copy of a list of fields.
pub fn clone_fields(fields: &Vec<Field>) -> (res: Vec<Field>)
    ensures
        fields_view(res@) == fields_view(fields@),
    decreases fields,
{
    let mut res: Vec<Field> = Vec::new();
    let mut i: usize = 0;
    while i < fields.len()
        invariant
            i <= fields.len(),
            res.len() == i,
            forall|j: int| 0 <= j < i ==> (#[trigger] res[j])@ == fields[j]@,
        decreases fields.len() - i,
    {
        res.push(fields[i].clone());
        i += 1;
    }
    assert(fields_view(res@) =~= fields_view(fields@));
    res
}

impl Field {
    /// A field of the given name and type.
    pub fn new(name: String, data_type: DataType, is_nullable: bool) -> (res: Field)
        ensures
            res == (Field { name, data_type, is_nullable }),
    {
        Field { name, data_type, is_nullable }
    }

    /// The type of the field.
    pub fn data_type(&self) -> (res: &DataType)
        ensures
            res == &self.data_type,
    {
        &self.data_type
    }
}

impl DataType {
    /// The type under every extension wrapper.
    pub fn to_logical_type(&self) -> (res: &DataType)
        ensures
            res@ == self@.to_logical_type(),
        decreases self,
    {
        match self {
            DataType::Extension(_, inner, _) => inner.to_logical_type(),
            _ => self,
        }
    }

    /// The class of array that holds values of this type.
    pub fn to_physical_type(&self) -> (res: PhysicalType)
        ensures
            res == self@.to_physical_type(),
        decreases self,
    {
        match self {
            DataType::Null => PhysicalType::Null,
            DataType::Boolean => PhysicalType::Boolean,
            DataType::Int8 => PhysicalType::Primitive(PrimitiveType::Int8),
            DataType::Int16 => PhysicalType::Primitive(PrimitiveType::Int16),
            DataType::Int32 | DataType::Date32 | DataType::Time32(_) => PhysicalType::Primitive(
                PrimitiveType::Int32,
            ),
            DataType::Interval(unit) => match unit {
                IntervalUnit::YearMonth => PhysicalType::Primitive(PrimitiveType::Int32),
                IntervalUnit::DayTime => PhysicalType::Primitive(PrimitiveType::DaysMs),
                IntervalUnit::MonthDayNano => PhysicalType::Primitive(PrimitiveType::MonthDayNano),
            },
            DataType::Int64
            | DataType::Date64
            | DataType::Timestamp(_, _)
            | DataType::Time64(_)
            | DataType::Duration(_) => PhysicalType::Primitive(PrimitiveType::Int64),
            DataType::Decimal(_, _) => PhysicalType::Primitive(PrimitiveType::Int128),
            DataType::Decimal256(_, _) => PhysicalType::Primitive(PrimitiveType::Int256),
            DataType::UInt8 => PhysicalType::Primitive(PrimitiveType::UInt8),
            DataType::UInt16 => PhysicalType::Primitive(PrimitiveType::UInt16),
            DataType::UInt32 => PhysicalType::Primitive(PrimitiveType::UInt32),
            DataType::UInt64 => PhysicalType::Primitive(PrimitiveType::UInt64),
            DataType::Float16 => PhysicalType::Primitive(PrimitiveType::Float16),
            DataType::Float32 => PhysicalType::Primitive(PrimitiveType::Float32),
            DataType::Float64 => PhysicalType::Primitive(PrimitiveType::Float64),
            DataType::Binary => PhysicalType::Binary,
            DataType::FixedSizeBinary(_) => PhysicalType::FixedSizeBinary,
            DataType::LargeBinary => PhysicalType::LargeBinary,
            DataType::Utf8 => PhysicalType::Utf8,
            DataType::LargeUtf8 => PhysicalType::LargeUtf8,
            DataType::List(_) => PhysicalType::List,
            DataType::FixedSizeList(_, _) => PhysicalType::FixedSizeList,
            DataType::LargeList(_) => PhysicalType::LargeList,
            DataType::Struct(_) => PhysicalType::Struct,
            DataType::Union(_, _) => PhysicalType::Union,
            DataType::MapOf(_, _) => PhysicalType::MapOf,
            DataType::Dictionary(key, _, _) => PhysicalType::Dictionary(*key),
            DataType::Extension(_, inner, _) => inner.to_physical_type(),
        }
    }
}

/// The number of flattened leaf columns that a subtree of the given type
/// owns.
pub fn n_columns(data_type: &DataType) -> (n: usize)
    requires
        data_type@.n_columns() <= usize::MAX,
    ensures
        n == data_type@.n_columns(),
    decreases data_type,
{
    match data_type {
        DataType::List(inner) | DataType::LargeList(inner) => n_columns(&inner.data_type),
        DataType::FixedSizeList(inner, _) => n_columns(&inner.data_type),
        DataType::MapOf(inner, _) => n_columns(&inner.data_type),
        DataType::Struct(fields) => {
            proof {
                lemma_fields_view(*fields);
            }
            fields_columns(fields)
        },
        DataType::Union(fields, _) => {
            proof {
                lemma_fields_view(*fields);
            }
            fields_columns(fields)
        },
        DataType::Extension(_, inner, _) => n_columns(inner),
        _ => 1,
    }
}

pub proof fn lemma_fields_n_columns_prefix(fields: Seq<FieldView>, n: int)
    requires
        0 <= n <= fields.len(),
    ensures
        fields_n_columns(fields.subrange(0, n)) <= fields_n_columns(fields),
    decreases fields.len() - n,
{
    if n < fields.len() {
        lemma_fields_n_columns_prefix(fields, n + 1);
        assert(fields.subrange(0, n + 1).drop_last() =~= fields.subrange(0, n));
    } else {
        assert(fields.subrange(0, n) =~= fields);
    }
}

fn fields_columns(fields: &Vec<Field>) -> (n: usize)
    requires
        fields_n_columns(fields_view(fields@)) <= usize::MAX,
    ensures
        n == fields_n_columns(fields_view(fields@)),
    decreases fields,
{
    let mut n: usize = 0;
    let mut i: usize = 0;
    while i < fields.len()
        invariant
            i <= fields.len(),
            n == fields_n_columns(fields_view(fields@).subrange(0, i as int)),
            fields_n_columns(fields_view(fields@)) <= usize::MAX,
        decreases fields.len() - i,
    {
        proof {
            let all = fields_view(fields@);
            lemma_fields_n_columns_prefix(all, i + 1);
            assert(all.subrange(0, i + 1).drop_last() =~= all.subrange(0, i as int));
            assert(all.subrange(0, i + 1).last() == fields[i as int]@);
        }
        n = n + n_columns(&fields[i].data_type);
        i += 1;
    }
    assert(fields_view(fields@).subrange(0, i as int) =~= fields_view(fields@));
    n
}


impl DataTypeView {
    /// The number of levels of types below this one.
    pub open spec fn depth(self) -> nat
        decreases self,
    {
        match self {
            DataTypeView::List(inner)
            | DataTypeView::LargeList(inner)
            | DataTypeView::FixedSizeList(inner, _)
            | DataTypeView::MapOf(inner, _) => 1 + inner.data_type.depth(),
            DataTypeView::Struct(fields) | DataTypeView::Union(fields, _) => 1 + fields_depth(
                fields,
            ),
            DataTypeView::Dictionary(_, values, _) => 1 + values.depth(),
            DataTypeView::Extension(_, inner, _) => 1 + inner.depth(),
            _ => 0,
        }
    }
}

/// The largest depth of the types of the fields.
pub open spec fn fields_depth(fields: Seq<FieldView>) -> nat
    decreases fields,
{
    if fields.len() == 0 {
        0
    } else {
        let rest = fields_depth(fields.drop_last());
        let last = fields.last().data_type.depth();
        if rest >= last {
            rest
        } else {
            last
        }
    }
}

/// No field is deeper than the fields together.
pub proof fn lemma_fields_depth(fields: Seq<FieldView>, i: int)
    requires
        0 <= i < fields.len(),
    ensures
        fields[i].data_type.depth() <= fields_depth(fields),
    decreases fields.len(),
{
    if i < fields.len() - 1 {
        lemma_fields_depth(fields.drop_last(), i);
    }
}

/// Taking the extension wrappers off changes neither the class of array nor
/// the number of leaf columns, makes the type no deeper, and leaves no
/// extension.
pub proof fn lemma_logical_type(dt: DataTypeView)
    ensures
        dt.to_logical_type().to_physical_type() == dt.to_physical_type(),
        dt.to_logical_type().n_columns() == dt.n_columns(),
        dt.to_logical_type().depth() <= dt.depth(),
        dt.to_logical_type().to_logical_type() == dt.to_logical_type(),
        !(dt.to_logical_type() is Extension),
    decreases dt,
{
    match dt {
        DataTypeView::Extension(_, inner, _) => {
            lemma_logical_type(*inner);
        },
        _ => {},
    }
}

/// The fields up to a field own the columns that the fields up to and with
/// it own, less its own.
pub proof fn lemma_fields_n_columns_step(fields: Seq<FieldView>, i: int)
    requires
        0 < i <= fields.len(),
    ensures
        fields_n_columns(fields.subrange(0, i)) == fields_n_columns(fields.subrange(0, i - 1))
            + fields[i - 1].data_type.n_columns(),
{
    assert(fields.subrange(0, i).drop_last() =~= fields.subrange(0, i - 1));
}

} // verus!
