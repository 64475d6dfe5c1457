//! Generators: they turn a stream of bencode tokens into another format.
pub mod json;
pub mod stack;

use vstd::prelude::*;
use vstd::string::StringExecFns;

verus! {

/// The four kinds of bencoded value.
#[derive(Debug, Clone, Copy, PartialEq, Eq, Structural)]
pub enum BencodeType {
    Integer,
    String,
    List,
    Dict,
}

impl BencodeType {
    /// The name of the kind.
    pub open spec fn name(self) -> Seq<char> {
        match self {
            BencodeType::Integer => "Integer"@,
            BencodeType::String => "String"@,
            BencodeType::List => "List"@,
            BencodeType::Dict => "Dict"@,
        }
    }

    /// The name of the kind.
    pub fn to_string(&self) -> (text: String)
        ensures
            text@ == self.name(),
    {
        let name = match self {
            BencodeType::Integer => "Integer",
            BencodeType::String => "String",
            BencodeType::List => "List",
            BencodeType::Dict => "Dict",
        };
        String::from_str(name)
    }
}

} // verus!
