//! The symbol entries that go with the Basic dialect of the lexer: one value
//! per symbol and no array sizes.

use vstd::prelude::*;

verus! {

/// The type of a symbol.
#[derive(Debug, Clone, Copy, PartialEq, Eq, Structural)]
pub enum Types {
    Integer,
    Float,
    Char,
    Array,
}

/// A value; a float is kept as written.
#[derive(Debug)]
pub enum TypeValue {
    Integer(i16),
    Float(String),
    Char(char),
    Array(Vec<TypeValue>),
}

/// An entry of the table.
#[allow(non_snake_case)]
#[derive(Debug)]
pub struct Symbol {
    pub Identifier: String,
    pub Type: Option<Types>,
    pub Is_Constant: Option<bool>,
    pub Address: Option<u64>,
    pub Value: Option<TypeValue>,
}

impl Symbol {
    #[allow(non_snake_case)]
    pub fn new(
        Identifier: String,
        Type: Option<Types>,
        Is_Constant: Option<bool>,
        Address: Option<u64>,
        Value: Option<TypeValue>,
    ) -> (s: Symbol)
        ensures
            s == (Symbol { Identifier, Type, Is_Constant, Address, Value }),
    {
        Symbol { Identifier, Type, Is_Constant, Address, Value }
    }
}

} // verus!
