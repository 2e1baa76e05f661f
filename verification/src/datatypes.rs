//! The logical types of arrays.

use vstd::prelude::*;
use vstd::string::StringExecFns;

verus! {

/// The unit of a time or a duration.
#[derive(Debug, Clone, Copy, PartialEq, Eq, Hash, Structural)]
pub enum TimeUnit {
    Second,
    Millisecond,
    Microsecond,
    Nanosecond,
}

/// The unit of a calendar interval.
#[derive(Debug, Clone, Copy, PartialEq, Eq, Hash, Structural)]
pub enum IntervalUnit {
    /// A number of months, held as a 32-bit integer.
    YearMonth,
    /// A number of days and of milliseconds, each held as a 32-bit integer.
    DayTime,
}

/// The logical type of an array: what its values mean. Several logical types
/// share one physical layout.
#[derive(Debug, Eq, Hash)]
pub enum DataType {
    /// Nothing but nulls.
    Null,
    Boolean,
    Int8,
    Int16,
    Int32,
    Int64,
    UInt8,
    UInt16,
    UInt32,
    UInt64,
    Float32,
    Float64,
    /// A point in time, counted in the unit from the epoch, with an optional
    /// time zone.
    Timestamp(TimeUnit, Option<String>),
    /// Days from the epoch, as a 32-bit integer.
    Date32,
    /// Milliseconds from the epoch, as a 64-bit integer.
    Date64,
    /// A time of the day, as a 32-bit integer.
    Time32(TimeUnit),
    /// A time of the day, as a 64-bit integer.
    Time64(TimeUnit),
    /// An elapsed time, as a 64-bit integer.
    Duration(TimeUnit),
    /// A calendar interval.
    Interval(IntervalUnit),
    /// Byte strings.
    Binary,
    /// Byte strings, in arrays that may hold more than 2^31 bytes.
    LargeBinary,
    /// UTF-8 strings.
    Utf8,
    /// UTF-8 strings, in arrays that may hold more than 2^31 bytes.
    LargeUtf8,
    /// Lists of values of the field's type.
    List(Box<Field>),
    /// Lists of a fixed number of values of the field's type.
    FixedSizeList(Box<Field>, i32),
    /// Lists of values of the field's type, in arrays that may hold more
    /// than 2^31 values.
    LargeList(Box<Field>),
    /// Values of the second type, each held once and referred to by keys of
    /// the first type.
    Dictionary(Box<DataType>, Box<DataType>),
}

/// A named, typed column of a nested type.
#[derive(Debug, Eq, Hash)]
pub struct Field {
    pub name: String,
    pub data_type: DataType,
    pub nullable: bool,
}

impl Field {
    /// Creates a field.
    pub fn new(name: &str, data_type: DataType, nullable: bool) -> (r: Self)
        ensures
            r.name@ == name@,
            r.data_type == data_type,
            r.nullable == nullable,
    {
        Field { name: name.to_owned(), data_type, nullable }
    }

    /// Returns the type of the field.
    pub fn data_type(&self) -> (r: &DataType)
        ensures
            *r == self.data_type,
    {
        &self.data_type
    }

}

impl Clone for Field {
    fn clone(&self) -> (r: Self)
        ensures
            r == *self,
        decreases self,
    {
        Field { name: self.name.clone(), data_type: self.data_type.clone(), nullable: self.nullable }
    }
}

impl DataType {
    /// Whether arrays of the type can be made: each dictionary in it has
    /// keys of an integer type, and each list of a fixed size has a
    /// positive size.
    pub open spec fn constructible(&self) -> bool
        decreases self,
    {
        match self {
            DataType::List(field) => field.data_type.constructible(),
            DataType::LargeList(field) => field.data_type.constructible(),
            DataType::FixedSizeList(field, size) => *size > 0 && field.data_type.constructible(),
            DataType::Dictionary(keys, values) => keys.is_integer() && values.constructible(),
            _ => true,
        }
    }

    /// Returns whether arrays of the type can be made.
    pub fn is_constructible(&self) -> (r: bool)
        ensures
            r == self.constructible(),
        decreases self,
    {
        match self {
            DataType::List(field) => field.data_type.is_constructible(),
            DataType::LargeList(field) => field.data_type.is_constructible(),
            DataType::FixedSizeList(field, size) => *size > 0 && field.data_type.is_constructible(),
            DataType::Dictionary(keys, values) => keys.is_integer_type()
                && values.is_constructible(),
            _ => true,
        }
    }

    /// Returns whether the type is one of the eight integer types.
    pub fn is_integer_type(&self) -> (r: bool)
        ensures
            r == self.is_integer(),
    {
        matches!(
            self,
            DataType::Int8
                | DataType::Int16
                | DataType::Int32
                | DataType::Int64
                | DataType::UInt8
                | DataType::UInt16
                | DataType::UInt32
                | DataType::UInt64
        )
    }

    /// Whether the type is one of the eight integer types.
    pub open spec fn is_integer(&self) -> bool {
        match self {
            DataType::Int8
            | DataType::Int16
            | DataType::Int32
            | DataType::Int64
            | DataType::UInt8
            | DataType::UInt16
            | DataType::UInt32
            | DataType::UInt64 => true,
            _ => false,
        }
    }

}

impl Clone for DataType {
    fn clone(&self) -> (r: Self)
        ensures
            r == *self,
        decreases self,
    {
        match self {
            DataType::Null => DataType::Null,
            DataType::Boolean => DataType::Boolean,
            DataType::Int8 => DataType::Int8,
            DataType::Int16 => DataType::Int16,
            DataType::Int32 => DataType::Int32,
            DataType::Int64 => DataType::Int64,
            DataType::UInt8 => DataType::UInt8,
            DataType::UInt16 => DataType::UInt16,
            DataType::UInt32 => DataType::UInt32,
            DataType::UInt64 => DataType::UInt64,
            DataType::Float32 => DataType::Float32,
            DataType::Float64 => DataType::Float64,
            DataType::Timestamp(unit, zone) => {
                let zone = match zone {
                    Some(name) => Some(name.clone()),
                    None => None,
                };
                DataType::Timestamp(*unit, zone)
            },
            DataType::Date32 => DataType::Date32,
            DataType::Date64 => DataType::Date64,
            DataType::Time32(unit) => DataType::Time32(*unit),
            DataType::Time64(unit) => DataType::Time64(*unit),
            DataType::Duration(unit) => DataType::Duration(*unit),
            DataType::Interval(unit) => DataType::Interval(*unit),
            DataType::Binary => DataType::Binary,
            DataType::LargeBinary => DataType::LargeBinary,
            DataType::Utf8 => DataType::Utf8,
            DataType::LargeUtf8 => DataType::LargeUtf8,
            DataType::List(field) => DataType::List(Box::new((**field).clone())),
            DataType::FixedSizeList(field, size) => DataType::FixedSizeList(
                Box::new((**field).clone()),
                *size,
            ),
            DataType::LargeList(field) => DataType::LargeList(Box::new((**field).clone())),
            DataType::Dictionary(keys, values) => DataType::Dictionary(
                Box::new((**keys).clone()),
                Box::new((**values).clone()),
            ),
        }
    }
}

impl Field {
    /// Whether the two fields have the same name, the same type and the
    /// same nullability.
    pub open spec fn same_as(&self, other: &Field) -> bool
        decreases self,
    {
        &&& self.name@ == other.name@
        &&& self.nullable == other.nullable
        &&& self.data_type.same_as(&other.data_type)
    }
}

impl DataType {
    /// Whether the two types are the same: the same tag, with the same
    /// unit, time zone, size, and the same types within.
    pub open spec fn same_as(&self, other: &DataType) -> bool
        decreases self,
    {
        match (self, other) {
            (DataType::Null, DataType::Null) => true,
            (DataType::Boolean, DataType::Boolean) => true,
            (DataType::Int8, DataType::Int8) => true,
            (DataType::Int16, DataType::Int16) => true,
            (DataType::Int32, DataType::Int32) => true,
            (DataType::Int64, DataType::Int64) => true,
            (DataType::UInt8, DataType::UInt8) => true,
            (DataType::UInt16, DataType::UInt16) => true,
            (DataType::UInt32, DataType::UInt32) => true,
            (DataType::UInt64, DataType::UInt64) => true,
            (DataType::Float32, DataType::Float32) => true,
            (DataType::Float64, DataType::Float64) => true,
            (DataType::Timestamp(unit, zone), DataType::Timestamp(other_unit, other_zone)) => unit
                == other_unit && match (zone, other_zone) {
                (Some(name), Some(other_name)) => name@ == other_name@,
                (None, None) => true,
                _ => false,
            },
            (DataType::Date32, DataType::Date32) => true,
            (DataType::Date64, DataType::Date64) => true,
            (DataType::Time32(unit), DataType::Time32(other_unit)) => unit == other_unit,
            (DataType::Time64(unit), DataType::Time64(other_unit)) => unit == other_unit,
            (DataType::Duration(unit), DataType::Duration(other_unit)) => unit == other_unit,
            (DataType::Interval(unit), DataType::Interval(other_unit)) => unit == other_unit,
            (DataType::Binary, DataType::Binary) => true,
            (DataType::LargeBinary, DataType::LargeBinary) => true,
            (DataType::Utf8, DataType::Utf8) => true,
            (DataType::LargeUtf8, DataType::LargeUtf8) => true,
            (DataType::List(field), DataType::List(other_field)) => field.same_as(other_field),
            (
                DataType::FixedSizeList(field, size),
                DataType::FixedSizeList(other_field, other_size),
            ) => size == other_size && field.same_as(other_field),
            (DataType::LargeList(field), DataType::LargeList(other_field)) => field.same_as(
                other_field,
            ),
            (DataType::Dictionary(keys, values), DataType::Dictionary(other_keys, other_values)) => {
                keys.same_as(other_keys) && values.same_as(other_values)
            },
            _ => false,
        }
    }
}

impl PartialEq for Field {
    fn eq(&self, other: &Self) -> (r: bool)
        decreases self,
    {
        self.name == other.name && self.nullable == other.nullable && self.data_type
            == other.data_type
    }
}

impl vstd::std_specs::cmp::PartialEqSpecImpl for Field {
    open spec fn obeys_eq_spec() -> bool {
        true
    }

    open spec fn eq_spec(&self, other: &Self) -> bool {
        self.same_as(other)
    }
}

impl PartialEq for DataType {
    fn eq(&self, other: &Self) -> (r: bool)
        decreases self,
    {
        match (self, other) {
            (DataType::Null, DataType::Null) => true,
            (DataType::Boolean, DataType::Boolean) => true,
            (DataType::Int8, DataType::Int8) => true,
            (DataType::Int16, DataType::Int16) => true,
            (DataType::Int32, DataType::Int32) => true,
            (DataType::Int64, DataType::Int64) => true,
            (DataType::UInt8, DataType::UInt8) => true,
            (DataType::UInt16, DataType::UInt16) => true,
            (DataType::UInt32, DataType::UInt32) => true,
            (DataType::UInt64, DataType::UInt64) => true,
            (DataType::Float32, DataType::Float32) => true,
            (DataType::Float64, DataType::Float64) => true,
            (DataType::Timestamp(unit, zone), DataType::Timestamp(other_unit, other_zone)) => {
                *unit == *other_unit && match (zone, other_zone) {
                    (Some(name), Some(other_name)) => *name == *other_name,
                    (None, None) => true,
                    _ => false,
                }
            },
            (DataType::Date32, DataType::Date32) => true,
            (DataType::Date64, DataType::Date64) => true,
            (DataType::Time32(unit), DataType::Time32(other_unit)) => *unit == *other_unit,
            (DataType::Time64(unit), DataType::Time64(other_unit)) => *unit == *other_unit,
            (DataType::Duration(unit), DataType::Duration(other_unit)) => *unit == *other_unit,
            (DataType::Interval(unit), DataType::Interval(other_unit)) => *unit == *other_unit,
            (DataType::Binary, DataType::Binary) => true,
            (DataType::LargeBinary, DataType::LargeBinary) => true,
            (DataType::Utf8, DataType::Utf8) => true,
            (DataType::LargeUtf8, DataType::LargeUtf8) => true,
            (DataType::List(field), DataType::List(other_field)) => **field == **other_field,
            (
                DataType::FixedSizeList(field, size),
                DataType::FixedSizeList(other_field, other_size),
            ) => *size == *other_size && **field == **other_field,
            (DataType::LargeList(field), DataType::LargeList(other_field)) => **field
                == **other_field,
            (DataType::Dictionary(keys, values), DataType::Dictionary(other_keys, other_values)) => {
                **keys == **other_keys && **values == **other_values
            },
            _ => false,
        }
    }
}

impl vstd::std_specs::cmp::PartialEqSpecImpl for DataType {
    open spec fn obeys_eq_spec() -> bool {
        true
    }

    open spec fn eq_spec(&self, other: &Self) -> bool {
        self.same_as(other)
    }
}

/// The digit `d` as text.
pub open spec fn digit(d: nat) -> Seq<char> {
    if d == 0 {
        "0"@
    } else if d == 1 {
        "1"@
    } else if d == 2 {
        "2"@
    } else if d == 3 {
        "3"@
    } else if d == 4 {
        "4"@
    } else if d == 5 {
        "5"@
    } else if d == 6 {
        "6"@
    } else if d == 7 {
        "7"@
    } else if d == 8 {
        "8"@
    } else {
        "9"@
    }
}

/// The number `n` as text, in decimal digits.
pub open spec fn digits(n: nat) -> Seq<char>
    decreases n,
{
    if n < 10 {
        digit(n)
    } else {
        digits(n / 10) + digit(n % 10)
    }
}

/// The number `n` as text, in decimal digits behind a minus sign where it
/// is negative.
pub open spec fn decimal(n: int) -> Seq<char> {
    if n < 0 {
        "-"@ + digits((-n) as nat)
    } else {
        digits(n as nat)
    }
}

/// Returns the digit `d` as text.
fn digit_text(d: u64) -> (r: &'static str)
    requires
        d < 10,
    ensures
        r@ == digit(d as nat),
{
    if d == 0 {
        "0"
    } else if d == 1 {
        "1"
    } else if d == 2 {
        "2"
    } else if d == 3 {
        "3"
    } else if d == 4 {
        "4"
    } else if d == 5 {
        "5"
    } else if d == 6 {
        "6"
    } else if d == 7 {
        "7"
    } else if d == 8 {
        "8"
    } else {
        "9"
    }
}

/// Appends the number `n` to `text`, in decimal digits.
fn append_digits(text: &mut String, n: u64)
    ensures
        final(text)@ == old(text)@ + digits(n as nat),
    decreases n,
{
    if n >= 10 {
        append_digits(text, n / 10);
    }
    text.append(digit_text(n % 10));
    assert(text@ =~= old(text)@ + digits(n as nat));
}

/// Appends the number `n` to `text`, in decimal digits behind a minus sign
/// where it is negative.
fn append_decimal(text: &mut String, n: i32)
    ensures
        final(text)@ == old(text)@ + decimal(n as int),
{
    if n < 0 {
        text.append("-");
        append_digits(text, (-(n as i64)) as u64);
    } else {
        append_digits(text, n as u64);
    }
    assert(text@ =~= old(text)@ + decimal(n as int));
}

impl TimeUnit {
    /// The name of the unit.
    pub open spec fn spec_text(self) -> Seq<char> {
        match self {
            TimeUnit::Second => "Second"@,
            TimeUnit::Millisecond => "Millisecond"@,
            TimeUnit::Microsecond => "Microsecond"@,
            TimeUnit::Nanosecond => "Nanosecond"@,
        }
    }

    /// Returns the name of the unit.
    pub fn text(&self) -> (r: &'static str)
        ensures
            r@ == self.spec_text(),
    {
        match self {
            TimeUnit::Second => "Second",
            TimeUnit::Millisecond => "Millisecond",
            TimeUnit::Microsecond => "Microsecond",
            TimeUnit::Nanosecond => "Nanosecond",
        }
    }
}

impl IntervalUnit {
    /// The name of the unit.
    pub open spec fn spec_text(self) -> Seq<char> {
        match self {
            IntervalUnit::YearMonth => "YearMonth"@,
            IntervalUnit::DayTime => "DayTime"@,
        }
    }

    /// Returns the name of the unit.
    pub fn text(&self) -> (r: &'static str)
        ensures
            r@ == self.spec_text(),
    {
        match self {
            IntervalUnit::YearMonth => "YearMonth",
            IntervalUnit::DayTime => "DayTime",
        }
    }
}

impl Field {
    /// The field as text: its name in quotes, its type and whether it may
    /// be null.
    pub open spec fn spec_text(&self) -> Seq<char>
        decreases self,
    {
        "Field { name: \""@ + self.name@ + "\", data_type: "@ + self.data_type.spec_text()
            + ", nullable: "@ + (if self.nullable {
            "true"@
        } else {
            "false"@
        }) + " }"@
    }

    /// Returns the field as text.
    pub fn text(&self) -> (r: String)
        ensures
            r@ == self.spec_text(),
        decreases self,
    {
        let mut text = String::from_str("Field { name: \"");
        text.append(self.name.as_str());
        text.append("\", data_type: ");
        let inner = self.data_type.text();
        text.append(inner.as_str());
        text.append(", nullable: ");
        text.append(
            if self.nullable {
                "true"
            } else {
                "false"
            },
        );
        text.append(" }");
        assert(text@ =~= self.spec_text());
        text
    }
}

impl DataType {
    /// The type as text: its tag, and in brackets behind it what it holds.
    pub open spec fn spec_text(&self) -> Seq<char>
        decreases self,
    {
        match self {
            DataType::Null => "Null"@,
            DataType::Boolean => "Boolean"@,
            DataType::Int8 => "Int8"@,
            DataType::Int16 => "Int16"@,
            DataType::Int32 => "Int32"@,
            DataType::Int64 => "Int64"@,
            DataType::UInt8 => "UInt8"@,
            DataType::UInt16 => "UInt16"@,
            DataType::UInt32 => "UInt32"@,
            DataType::UInt64 => "UInt64"@,
            DataType::Float32 => "Float32"@,
            DataType::Float64 => "Float64"@,
            DataType::Timestamp(unit, zone) => "Timestamp("@ + unit.spec_text() + ", "@ + (
            match zone {
                Some(name) => "Some(\""@ + name@ + "\")"@,
                None => "None"@,
            }) + ")"@,
            DataType::Date32 => "Date32"@,
            DataType::Date64 => "Date64"@,
            DataType::Time32(unit) => "Time32("@ + unit.spec_text() + ")"@,
            DataType::Time64(unit) => "Time64("@ + unit.spec_text() + ")"@,
            DataType::Duration(unit) => "Duration("@ + unit.spec_text() + ")"@,
            DataType::Interval(unit) => "Interval("@ + unit.spec_text() + ")"@,
            DataType::Binary => "Binary"@,
            DataType::LargeBinary => "LargeBinary"@,
            DataType::Utf8 => "Utf8"@,
            DataType::LargeUtf8 => "LargeUtf8"@,
            DataType::List(field) => "List("@ + field.spec_text() + ")"@,
            DataType::FixedSizeList(field, size) => "FixedSizeList("@ + field.spec_text() + ", "@
                + decimal(*size as int) + ")"@,
            DataType::LargeList(field) => "LargeList("@ + field.spec_text() + ")"@,
            DataType::Dictionary(keys, values) => "Dictionary("@ + keys.spec_text() + ", "@
                + values.spec_text() + ")"@,
        }
    }

    /// Returns the type as text.
    pub fn text(&self) -> (r: String)
        ensures
            r@ == self.spec_text(),
        decreases self,
    {
        match self {
            DataType::Null => String::from_str("Null"),
            DataType::Boolean => String::from_str("Boolean"),
            DataType::Int8 => String::from_str("Int8"),
            DataType::Int16 => String::from_str("Int16"),
            DataType::Int32 => String::from_str("Int32"),
            DataType::Int64 => String::from_str("Int64"),
            DataType::UInt8 => String::from_str("UInt8"),
            DataType::UInt16 => String::from_str("UInt16"),
            DataType::UInt32 => String::from_str("UInt32"),
            DataType::UInt64 => String::from_str("UInt64"),
            DataType::Float32 => String::from_str("Float32"),
            DataType::Float64 => String::from_str("Float64"),
            DataType::Timestamp(unit, zone) => {
                let mut text = String::from_str("Timestamp(");
                text.append(unit.text());
                text.append(", ");
                match zone {
                    Some(name) => {
                        text.append("Some(\"");
                        text.append(name.as_str());
                        text.append("\")");
                    },
                    None => {
                        text.append("None");
                    },
                }
                text.append(")");
                assert(text@ =~= self.spec_text());
                text
            },
            DataType::Date32 => String::from_str("Date32"),
            DataType::Date64 => String::from_str("Date64"),
            DataType::Time32(unit) => {
                let mut text = String::from_str("Time32(");
                text.append(unit.text());
                text.append(")");
                text
            },
            DataType::Time64(unit) => {
                let mut text = String::from_str("Time64(");
                text.append(unit.text());
                text.append(")");
                text
            },
            DataType::Duration(unit) => {
                let mut text = String::from_str("Duration(");
                text.append(unit.text());
                text.append(")");
                text
            },
            DataType::Interval(unit) => {
                let mut text = String::from_str("Interval(");
                text.append(unit.text());
                text.append(")");
                text
            },
            DataType::Binary => String::from_str("Binary"),
            DataType::LargeBinary => String::from_str("LargeBinary"),
            DataType::Utf8 => String::from_str("Utf8"),
            DataType::LargeUtf8 => String::from_str("LargeUtf8"),
            DataType::List(field) => {
                let mut text = String::from_str("List(");
                let inner = field.text();
                text.append(inner.as_str());
                text.append(")");
                text
            },
            DataType::FixedSizeList(field, size) => {
                let mut text = String::from_str("FixedSizeList(");
                let inner = field.text();
                text.append(inner.as_str());
                text.append(", ");
                append_decimal(&mut text, *size);
                text.append(")");
                assert(text@ =~= self.spec_text());
                text
            },
            DataType::LargeList(field) => {
                let mut text = String::from_str("LargeList(");
                let inner = field.text();
                text.append(inner.as_str());
                text.append(")");
                text
            },
            DataType::Dictionary(keys, values) => {
                let mut text = String::from_str("Dictionary(");
                let inner = keys.text();
                text.append(inner.as_str());
                text.append(", ");
                let inner = values.text();
                text.append(inner.as_str());
                text.append(")");
                assert(text@ =~= self.spec_text());
                text
            },
        }
    }
}

} // verus!
