//! The errors of the kernels.

use crate::datatypes::DataType;
use vstd::prelude::*;
use vstd::string::StringExecFns;

verus! {

/// What a kernel does not handle.
#[derive(Debug, Clone, Copy, PartialEq, Eq, Structural)]
pub enum Unsupported {
    /// The sort of arrays of a logical type.
    SortOfType,
    /// The sort of lists of items of a type.
    SortOfListItems,
    /// The sort of dictionaries of values of a type.
    SortOfDictionaryValues,
    /// The sort of dictionaries of keys of a type.
    SortOfDictionaryKeys,
}

/// The error of a kernel.
#[derive(Debug)]
pub enum ArrowError {
    /// The kernel is not implemented for a type: what it does not handle,
    /// and the type.
    NotYetImplemented(Unsupported, DataType),
}

impl Unsupported {
    /// The words that say what the kernel does not handle.
    pub open spec fn spec_words(self) -> Seq<char> {
        match self {
            Unsupported::SortOfType => "Sort not supported for data type "@,
            Unsupported::SortOfListItems => "Sort not supported for list type "@,
            Unsupported::SortOfDictionaryValues => "Sort not supported for dictionary type with keys "@,
            Unsupported::SortOfDictionaryKeys => "Sort not supported for dictionary key type "@,
        }
    }

    /// Returns the words that say what the kernel does not handle.
    pub fn words(&self) -> (r: &'static str)
        ensures
            r@ == self.spec_words(),
    {
        match self {
            Unsupported::SortOfType => "Sort not supported for data type ",
            Unsupported::SortOfListItems => "Sort not supported for list type ",
            Unsupported::SortOfDictionaryValues => "Sort not supported for dictionary type with keys ",
            Unsupported::SortOfDictionaryKeys => "Sort not supported for dictionary key type ",
        }
    }
}

impl ArrowError {
    /// The message of the error: the words that say what the kernel does
    /// not handle, and behind them the type, as text.
    pub open spec fn spec_message(&self) -> Seq<char> {
        match self {
            ArrowError::NotYetImplemented(what, data_type) => what.spec_words()
                + data_type.spec_text(),
        }
    }

    /// Returns the message of the error.
    pub fn message(&self) -> (r: String)
        ensures
            r@ == self.spec_message(),
    {
        match self {
            ArrowError::NotYetImplemented(what, data_type) => {
                let mut text = String::from_str(what.words());
                let name = data_type.text();
                text.append(name.as_str());
                text
            },
        }
    }
}

} // verus!
