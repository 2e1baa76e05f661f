//! The fixed-width values that an array stores flat, each with the total
//! order by which it is sorted, and the integers that serve as positions.

use crate::datatypes::{DataType, IntervalUnit};
use vstd::prelude::*;

verus! {

/// A fixed-width value that a flat buffer stores. Each type has a total
/// order, given by the rank of its values, and a default value, which fills
/// the slots of nulls.
pub trait NativeType: Copy {
    /// The place of the value in the total order of its type. Different
    /// values have different ranks.
    spec fn rank(self) -> int;

    /// The value that fills the slot of a null.
    spec fn spec_zero() -> Self;

    /// The logical type that arrays of such values have unless they are
    /// given another.
    spec fn spec_data_type() -> DataType;

    /// Whether arrays of such values hold the values of the logical type
    /// `data_type`.
    spec fn accepts(data_type: DataType) -> bool;

    /// Values of one rank are one value.
    proof fn lemma_rank(a: Self, b: Self)
        requires
            a.rank() == b.rank(),
        ensures
            a == b,
    ;

    /// Returns the value that fills the slot of a null.
    fn zero() -> (r: Self)
        ensures
            r == Self::spec_zero(),
    ;

    /// Returns the logical type that arrays of such values have unless they
    /// are given another.
    fn data_type() -> (r: DataType)
        ensures
            r == Self::spec_data_type(),
            Self::accepts(r),
    ;

    /// Returns whether arrays of such values hold the values of the logical
    /// type `data_type`.
    fn is_valid(data_type: &DataType) -> (r: bool)
        ensures
            r == Self::accepts(*data_type),
    ;

    /// Returns whether `self` comes before `other` in the total order.
    fn total_lt(&self, other: &Self) -> (r: bool)
        ensures
            r == (self.rank() < other.rank()),
    ;

    /// Returns whether `self` and `other` are one value.
    fn same(&self, other: &Self) -> (r: bool)
        ensures
            r == (*self == *other),
    ;
}

impl NativeType for i8 {
    open spec fn rank(self) -> int {
        self as int
    }

    open spec fn spec_zero() -> Self {
        0
    }

    open spec fn spec_data_type() -> DataType {
        DataType::Int8
    }

    open spec fn accepts(data_type: DataType) -> bool {
        data_type is Int8
    }

    proof fn lemma_rank(a: Self, b: Self) {
    }

    fn zero() -> (r: Self) {
        0
    }

    fn data_type() -> (r: DataType) {
        DataType::Int8
    }

    fn is_valid(data_type: &DataType) -> (r: bool) {
        matches!(data_type, DataType::Int8)
    }

    fn total_lt(&self, other: &Self) -> (r: bool) {
        *self < *other
    }

    fn same(&self, other: &Self) -> (r: bool) {
        *self == *other
    }
}

impl NativeType for i16 {
    open spec fn rank(self) -> int {
        self as int
    }

    open spec fn spec_zero() -> Self {
        0
    }

    open spec fn spec_data_type() -> DataType {
        DataType::Int16
    }

    open spec fn accepts(data_type: DataType) -> bool {
        data_type is Int16
    }

    proof fn lemma_rank(a: Self, b: Self) {
    }

    fn zero() -> (r: Self) {
        0
    }

    fn data_type() -> (r: DataType) {
        DataType::Int16
    }

    fn is_valid(data_type: &DataType) -> (r: bool) {
        matches!(data_type, DataType::Int16)
    }

    fn total_lt(&self, other: &Self) -> (r: bool) {
        *self < *other
    }

    fn same(&self, other: &Self) -> (r: bool) {
        *self == *other
    }
}

impl NativeType for i32 {
    open spec fn rank(self) -> int {
        self as int
    }

    open spec fn spec_zero() -> Self {
        0
    }

    open spec fn spec_data_type() -> DataType {
        DataType::Int32
    }

    open spec fn accepts(data_type: DataType) -> bool {
        data_type is Int32 || data_type is Date32 || data_type is Time32
            || data_type == DataType::Interval(IntervalUnit::YearMonth)
    }

    proof fn lemma_rank(a: Self, b: Self) {
    }

    fn zero() -> (r: Self) {
        0
    }

    fn data_type() -> (r: DataType) {
        DataType::Int32
    }

    fn is_valid(data_type: &DataType) -> (r: bool) {
        matches!(
            data_type,
            DataType::Int32
                | DataType::Date32
                | DataType::Time32(_)
                | DataType::Interval(IntervalUnit::YearMonth)
        )
    }

    fn total_lt(&self, other: &Self) -> (r: bool) {
        *self < *other
    }

    fn same(&self, other: &Self) -> (r: bool) {
        *self == *other
    }
}

impl NativeType for i64 {
    open spec fn rank(self) -> int {
        self as int
    }

    open spec fn spec_zero() -> Self {
        0
    }

    open spec fn spec_data_type() -> DataType {
        DataType::Int64
    }

    open spec fn accepts(data_type: DataType) -> bool {
        data_type is Int64 || data_type is Date64 || data_type is Time64
            || data_type is Timestamp || data_type is Duration
    }

    proof fn lemma_rank(a: Self, b: Self) {
    }

    fn zero() -> (r: Self) {
        0
    }

    fn data_type() -> (r: DataType) {
        DataType::Int64
    }

    fn is_valid(data_type: &DataType) -> (r: bool) {
        matches!(
            data_type,
            DataType::Int64
                | DataType::Date64
                | DataType::Time64(_)
                | DataType::Timestamp(_, _)
                | DataType::Duration(_)
        )
    }

    fn total_lt(&self, other: &Self) -> (r: bool) {
        *self < *other
    }

    fn same(&self, other: &Self) -> (r: bool) {
        *self == *other
    }
}

impl NativeType for u8 {
    open spec fn rank(self) -> int {
        self as int
    }

    open spec fn spec_zero() -> Self {
        0
    }

    open spec fn spec_data_type() -> DataType {
        DataType::UInt8
    }

    open spec fn accepts(data_type: DataType) -> bool {
        data_type is UInt8
    }

    proof fn lemma_rank(a: Self, b: Self) {
    }

    fn zero() -> (r: Self) {
        0
    }

    fn data_type() -> (r: DataType) {
        DataType::UInt8
    }

    fn is_valid(data_type: &DataType) -> (r: bool) {
        matches!(data_type, DataType::UInt8)
    }

    fn total_lt(&self, other: &Self) -> (r: bool) {
        *self < *other
    }

    fn same(&self, other: &Self) -> (r: bool) {
        *self == *other
    }
}

impl NativeType for u16 {
    open spec fn rank(self) -> int {
        self as int
    }

    open spec fn spec_zero() -> Self {
        0
    }

    open spec fn spec_data_type() -> DataType {
        DataType::UInt16
    }

    open spec fn accepts(data_type: DataType) -> bool {
        data_type is UInt16
    }

    proof fn lemma_rank(a: Self, b: Self) {
    }

    fn zero() -> (r: Self) {
        0
    }

    fn data_type() -> (r: DataType) {
        DataType::UInt16
    }

    fn is_valid(data_type: &DataType) -> (r: bool) {
        matches!(data_type, DataType::UInt16)
    }

    fn total_lt(&self, other: &Self) -> (r: bool) {
        *self < *other
    }

    fn same(&self, other: &Self) -> (r: bool) {
        *self == *other
    }
}

impl NativeType for u32 {
    open spec fn rank(self) -> int {
        self as int
    }

    open spec fn spec_zero() -> Self {
        0
    }

    open spec fn spec_data_type() -> DataType {
        DataType::UInt32
    }

    open spec fn accepts(data_type: DataType) -> bool {
        data_type is UInt32
    }

    proof fn lemma_rank(a: Self, b: Self) {
    }

    fn zero() -> (r: Self) {
        0
    }

    fn data_type() -> (r: DataType) {
        DataType::UInt32
    }

    fn is_valid(data_type: &DataType) -> (r: bool) {
        matches!(data_type, DataType::UInt32)
    }

    fn total_lt(&self, other: &Self) -> (r: bool) {
        *self < *other
    }

    fn same(&self, other: &Self) -> (r: bool) {
        *self == *other
    }
}

impl NativeType for u64 {
    open spec fn rank(self) -> int {
        self as int
    }

    open spec fn spec_zero() -> Self {
        0
    }

    open spec fn spec_data_type() -> DataType {
        DataType::UInt64
    }

    open spec fn accepts(data_type: DataType) -> bool {
        data_type is UInt64
    }

    proof fn lemma_rank(a: Self, b: Self) {
    }

    fn zero() -> (r: Self) {
        0
    }

    fn data_type() -> (r: DataType) {
        DataType::UInt64
    }

    fn is_valid(data_type: &DataType) -> (r: bool) {
        matches!(data_type, DataType::UInt64)
    }

    fn total_lt(&self, other: &Self) -> (r: bool) {
        *self < *other
    }

    fn same(&self, other: &Self) -> (r: bool) {
        *self == *other
    }
}

/// A number of days and a number of milliseconds. Values are ordered by
/// their days, and by their milliseconds where the days are equal.
#[allow(non_camel_case_types)]
#[derive(Debug, Clone, Copy, PartialEq, Eq, Hash, Structural)]
pub struct days_ms {
    pub days: i32,
    pub milliseconds: i32,
}

impl days_ms {
    /// Creates the interval of `days` days and `milliseconds` milliseconds.
    pub fn new(days: i32, milliseconds: i32) -> (r: Self)
        ensures
            r.days == days,
            r.milliseconds == milliseconds,
    {
        days_ms { days, milliseconds }
    }
}

impl NativeType for days_ms {
    open spec fn rank(self) -> int {
        self.days * 0x1_0000_0000 + self.milliseconds
    }

    open spec fn spec_zero() -> Self {
        days_ms { days: 0, milliseconds: 0 }
    }

    open spec fn spec_data_type() -> DataType {
        DataType::Interval(IntervalUnit::DayTime)
    }

    open spec fn accepts(data_type: DataType) -> bool {
        data_type == DataType::Interval(IntervalUnit::DayTime)
    }

    proof fn lemma_rank(a: Self, b: Self) {
    }

    fn zero() -> (r: Self) {
        days_ms { days: 0, milliseconds: 0 }
    }

    fn data_type() -> (r: DataType) {
        DataType::Interval(IntervalUnit::DayTime)
    }

    fn is_valid(data_type: &DataType) -> (r: bool) {
        matches!(data_type, DataType::Interval(IntervalUnit::DayTime))
    }

    fn total_lt(&self, other: &Self) -> (r: bool) {
        self.days < other.days || (self.days == other.days && self.milliseconds
            < other.milliseconds)
    }

    fn same(&self, other: &Self) -> (r: bool) {
        self.days == other.days && self.milliseconds == other.milliseconds
    }
}

/// A 32-bit binary floating-point number of IEEE 754, held by its bits.
/// Values are ordered by the total order of that standard: negative numbers
/// before positive ones, each NaN beyond the infinity of its sign, and
/// negative zero before positive zero.
#[derive(Debug, Clone, Copy, PartialEq, Eq, Hash, Structural)]
pub struct Float32 {
    pub bits: u32,
}

impl Float32 {
    /// Creates the number with the bits `bits`.
    pub fn from_bits(bits: u32) -> (r: Self)
        ensures
            r.bits == bits,
    {
        Float32 { bits }
    }

    /// Returns the bits of the number.
    pub fn to_bits(&self) -> (r: u32)
        ensures
            r == self.bits,
    {
        self.bits
    }

    /// Returns the rank of the number.
    fn key(&self) -> (r: i64)
        ensures
            r == self.rank(),
    {
        if self.bits < 0x8000_0000 {
            self.bits as i64
        } else {
            -1 - ((self.bits - 0x8000_0000) as i64)
        }
    }
}

impl NativeType for Float32 {
    open spec fn rank(self) -> int {
        if self.bits < 0x8000_0000 {
            self.bits as int
        } else {
            -1 - (self.bits - 0x8000_0000)
        }
    }

    open spec fn spec_zero() -> Self {
        Float32 { bits: 0 }
    }

    open spec fn spec_data_type() -> DataType {
        DataType::Float32
    }

    open spec fn accepts(data_type: DataType) -> bool {
        data_type is Float32
    }

    proof fn lemma_rank(a: Self, b: Self) {
    }

    fn zero() -> (r: Self) {
        Float32 { bits: 0 }
    }

    fn data_type() -> (r: DataType) {
        DataType::Float32
    }

    fn is_valid(data_type: &DataType) -> (r: bool) {
        matches!(data_type, DataType::Float32)
    }

    fn total_lt(&self, other: &Self) -> (r: bool) {
        self.key() < other.key()
    }

    fn same(&self, other: &Self) -> (r: bool) {
        self.bits == other.bits
    }
}

/// A 64-bit binary floating-point number of IEEE 754, held by its bits.
/// Values are ordered by the total order of that standard: negative numbers
/// before positive ones, each NaN beyond the infinity of its sign, and
/// negative zero before positive zero.
#[derive(Debug, Clone, Copy, PartialEq, Eq, Hash, Structural)]
pub struct Float64 {
    pub bits: u64,
}

impl Float64 {
    /// Creates the number with the bits `bits`.
    pub fn from_bits(bits: u64) -> (r: Self)
        ensures
            r.bits == bits,
    {
        Float64 { bits }
    }

    /// Returns the bits of the number.
    pub fn to_bits(&self) -> (r: u64)
        ensures
            r == self.bits,
    {
        self.bits
    }

    /// Returns the rank of the number.
    fn key(&self) -> (r: i128)
        ensures
            r == self.rank(),
    {
        if self.bits < 0x8000_0000_0000_0000 {
            self.bits as i128
        } else {
            -1 - ((self.bits - 0x8000_0000_0000_0000) as i128)
        }
    }
}

impl NativeType for Float64 {
    open spec fn rank(self) -> int {
        if self.bits < 0x8000_0000_0000_0000 {
            self.bits as int
        } else {
            -1 - (self.bits - 0x8000_0000_0000_0000)
        }
    }

    open spec fn spec_zero() -> Self {
        Float64 { bits: 0 }
    }

    open spec fn spec_data_type() -> DataType {
        DataType::Float64
    }

    open spec fn accepts(data_type: DataType) -> bool {
        data_type is Float64
    }

    proof fn lemma_rank(a: Self, b: Self) {
    }

    fn zero() -> (r: Self) {
        Float64 { bits: 0 }
    }

    fn data_type() -> (r: DataType) {
        DataType::Float64
    }

    fn is_valid(data_type: &DataType) -> (r: bool) {
        matches!(data_type, DataType::Float64)
    }

    fn total_lt(&self, other: &Self) -> (r: bool) {
        self.key() < other.key()
    }

    fn same(&self, other: &Self) -> (r: bool) {
        self.bits == other.bits
    }
}

/// An integer type that serves as a position in an array.
pub trait Index: NativeType {
    /// The largest position that the type holds.
    spec fn spec_max() -> int;

    /// The position that the value stands for.
    spec fn spec_position(self) -> int;

    /// Returns the value that stands for the position `position`, where the
    /// type holds it.
    fn from_usize(position: usize) -> (r: Option<Self>)
        ensures
            r is Some <==> position <= Self::spec_max(),
            r matches Some(index) ==> index.spec_position() == position,
    ;

    /// Returns the position that the value stands for.
    fn to_usize(&self) -> (r: usize)
        requires
            0 <= self.spec_position() <= usize::MAX,
        ensures
            r == self.spec_position(),
    ;
}

impl Index for i32 {
    open spec fn spec_max() -> int {
        i32::MAX as int
    }

    open spec fn spec_position(self) -> int {
        self as int
    }

    fn from_usize(position: usize) -> (r: Option<Self>) {
        if position <= i32::MAX as usize {
            Some(position as i32)
        } else {
            None
        }
    }

    fn to_usize(&self) -> (r: usize) {
        *self as usize
    }
}

impl Index for i64 {
    open spec fn spec_max() -> int {
        i64::MAX as int
    }

    open spec fn spec_position(self) -> int {
        self as int
    }

    fn from_usize(position: usize) -> (r: Option<Self>) {
        if position as u64 <= i64::MAX as u64 {
            Some(position as i64)
        } else {
            None
        }
    }

    fn to_usize(&self) -> (r: usize) {
        *self as usize
    }
}

impl Index for u32 {
    open spec fn spec_max() -> int {
        u32::MAX as int
    }

    open spec fn spec_position(self) -> int {
        self as int
    }

    fn from_usize(position: usize) -> (r: Option<Self>) {
        if position <= u32::MAX as usize {
            Some(position as u32)
        } else {
            None
        }
    }

    fn to_usize(&self) -> (r: usize) {
        *self as usize
    }
}

impl Index for u64 {
    open spec fn spec_max() -> int {
        u64::MAX as int
    }

    open spec fn spec_position(self) -> int {
        self as int
    }

    fn from_usize(position: usize) -> (r: Option<Self>) {
        Some(position as u64)
    }

    fn to_usize(&self) -> (r: usize) {
        *self as usize
    }
}

} // verus!
