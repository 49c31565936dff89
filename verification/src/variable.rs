//! UPS variables: their names, descriptions, types and values.

use vstd::prelude::*;
use crate::string_escape::{escape_string_value, escaped};
use crate::text::{decimal, decimal_string};

verus! {

/// The name of a UPS variable, such as `battery.charge`.
#[derive(Debug, Clone)]
pub struct ModNutVariableName(pub String);

impl ModNutVariableName {
    pub open spec fn text(&self) -> Seq<char> {
        self.0@
    }

    /// The name as the protocol writes it.
    pub fn to_string(&self) -> (s: String)
        ensures
            s@ == self.text(),
    {
        self.0.clone()
    }
}

/// The description of a UPS variable; the protocol writes it escaped.
#[derive(Debug, Clone)]
pub struct ModNutVariableDescription(pub String);

impl ModNutVariableDescription {
    pub open spec fn text(&self) -> Seq<char> {
        escaped(self.0@)
    }

    pub fn to_string(&self) -> (s: String)
        ensures
            s@ == self.text(),
    {
        escape_string_value(self.0.as_str())
    }
}

/// A type that a UPS variable has.
#[derive(Debug, Clone)]
pub enum ModNutVariableType {
    /// `RW`
    ReadWrite,
    /// `ENUM`
    Enumeration,
    /// `STRING:n`, a string of at most `n` characters.
    String(u64),
    /// `RANGE`
    Range,
    /// `NUMBER`
    Number,
}

impl ModNutVariableType {
    pub open spec fn text(&self) -> Seq<char> {
        match self {
            ModNutVariableType::ReadWrite => "RW"@,
            ModNutVariableType::Enumeration => "ENUM"@,
            ModNutVariableType::String(max_length) => "STRING:"@ + decimal(*max_length as nat),
            ModNutVariableType::Range => "RANGE"@,
            ModNutVariableType::Number => "NUMBER"@,
        }
    }

    pub fn to_string(&self) -> (s: String)
        ensures
            s@ == self.text(),
    {
        match self {
            ModNutVariableType::ReadWrite => String::from_str("RW"),
            ModNutVariableType::Enumeration => String::from_str("ENUM"),
            ModNutVariableType::String(max_length) => {
                let mut s = String::from_str("STRING:");
                s.append(decimal_string(*max_length).as_str());
                s
            },
            ModNutVariableType::Range => String::from_str("RANGE"),
            ModNutVariableType::Number => String::from_str("NUMBER"),
        }
    }
}

/// One of the values an enumeration variable may take; the protocol writes it
/// escaped.
#[derive(Debug, Clone)]
pub struct ModNutVariableTypeEnumVariant(pub String);

impl ModNutVariableTypeEnumVariant {
    pub open spec fn text(&self) -> Seq<char> {
        escaped(self.0@)
    }

    pub fn to_string(&self) -> (s: String)
        ensures
            s@ == self.text(),
    {
        escape_string_value(self.0.as_str())
    }
}

/// A bound of the range a variable may take.
#[derive(Debug, Clone)]
pub enum ModNutVariableTypeRangeBound {
    Integer(u64),
    /// A floating-point bound, held as the text that Rust's `Display` for
    /// `f64` gives for it.
    Float(String),
}

impl ModNutVariableTypeRangeBound {
    pub open spec fn text(&self) -> Seq<char> {
        match self {
            ModNutVariableTypeRangeBound::Integer(value) => decimal(*value as nat),
            ModNutVariableTypeRangeBound::Float(text) => text@,
        }
    }

    pub fn to_string(&self) -> (s: String)
        ensures
            s@ == self.text(),
    {
        match self {
            ModNutVariableTypeRangeBound::Integer(value) => decimal_string(*value),
            ModNutVariableTypeRangeBound::Float(text) => text.clone(),
        }
    }
}

/// The value of a UPS variable.
#[derive(Debug, Clone)]
pub enum ModNutVariableValue {
    /// A string value; the protocol writes it escaped.
    String(String),
    Integer(u64),
    /// A floating-point value, held as the text that Rust's `Display` for
    /// `f64` gives for it.
    Float(String),
}

impl ModNutVariableValue {
    pub open spec fn text(&self) -> Seq<char> {
        match self {
            ModNutVariableValue::String(value) => escaped(value@),
            ModNutVariableValue::Integer(value) => decimal(*value as nat),
            ModNutVariableValue::Float(text) => text@,
        }
    }

    pub fn to_string(&self) -> (s: String)
        ensures
            s@ == self.text(),
    {
        match self {
            ModNutVariableValue::String(value) => escape_string_value(value.as_str()),
            ModNutVariableValue::Integer(value) => decimal_string(*value),
            ModNutVariableValue::Float(text) => text.clone(),
        }
    }
}

} // verus!
