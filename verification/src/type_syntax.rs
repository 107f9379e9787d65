//! Type names as they are written in annotations.
use vstd::prelude::*;

use crate::ast::{CiprType, SpecType};

verus! {

/// The type that a written type name stands for: one of the five built-in
/// names, or else the struct of that name.
pub open spec fn named_type(name: Seq<char>) -> SpecType {
    if name == "int"@ {
        SpecType::Int
    } else if name == "float"@ {
        SpecType::Float
    } else if name == "str"@ {
        SpecType::Str
    } else if name == "bool"@ {
        SpecType::Bool
    } else if name == "void"@ {
        SpecType::Void
    } else {
        SpecType::Struct(name)
    }
}

/// The declared type of an optional annotation: the annotation, or
/// `Unknown` where there is none.
pub fn parse_annotation(annotation: &Option<CiprType>) -> (t: CiprType)
    ensures
        t@ == match annotation {
            Some(a) => a@,
            None => SpecType::Unknown,
        },
{
    match annotation {
        Some(a) => a.duplicate(),
        None => CiprType::Unknown,
    }
}

/// The type that a written type name stands for.
pub fn parse_named_type(name: &str) -> (t: CiprType)
    ensures
        t@ == named_type(name@),
{
    if crate::text::str_eq(name, "int") {
        CiprType::Int
    } else if crate::text::str_eq(name, "float") {
        CiprType::Float
    } else if crate::text::str_eq(name, "str") {
        CiprType::Str
    } else if crate::text::str_eq(name, "bool") {
        CiprType::Bool
    } else if crate::text::str_eq(name, "void") {
        CiprType::Void
    } else {
        CiprType::Struct(name.to_string())
    }
}

} // verus!
