//! The operations that the machine provides, as programs name them.

use vstd::prelude::*;

verus! {

/// An operation of the machine that a program calls by name.
#[derive(Debug, Clone, Copy, Hash, PartialEq, Eq, Structural)]
#[allow(non_camel_case_types)]
pub enum Builtin {
    int_add,
    int_sub,
    int_mul,
    int_div,
    int_mod,
    int_and,
    int_or,
    int_xor,
    int_eq,
    int_ne,
    int_lt,
    int_le,
    int_gt,
    int_ge,
    float_add,
    float_sub,
    float_mul,
    float_div,
    float_mod,
    float_eq,
    float_ne,
    float_lt,
    float_le,
    float_gt,
    float_ge,
    string_concat,
    string_eq,
    string_ne,
    string_lt,
    string_le,
    string_gt,
    string_ge,
    bool_and,
    bool_or,
    bool_xor,
    bool_eq,
    bool_ne,
    pow,
    exp,
    ln,
}

/// The name of a builtin operation.
pub open spec fn builtin_name(b: Builtin) -> Seq<char> {
    match b {
        Builtin::int_add => "int_add"@,
        Builtin::int_sub => "int_sub"@,
        Builtin::int_mul => "int_mul"@,
        Builtin::int_div => "int_div"@,
        Builtin::int_mod => "int_mod"@,
        Builtin::int_and => "int_and"@,
        Builtin::int_or => "int_or"@,
        Builtin::int_xor => "int_xor"@,
        Builtin::int_eq => "int_eq"@,
        Builtin::int_ne => "int_ne"@,
        Builtin::int_lt => "int_lt"@,
        Builtin::int_le => "int_le"@,
        Builtin::int_gt => "int_gt"@,
        Builtin::int_ge => "int_ge"@,
        Builtin::float_add => "float_add"@,
        Builtin::float_sub => "float_sub"@,
        Builtin::float_mul => "float_mul"@,
        Builtin::float_div => "float_div"@,
        Builtin::float_mod => "float_mod"@,
        Builtin::float_eq => "float_eq"@,
        Builtin::float_ne => "float_ne"@,
        Builtin::float_lt => "float_lt"@,
        Builtin::float_le => "float_le"@,
        Builtin::float_gt => "float_gt"@,
        Builtin::float_ge => "float_ge"@,
        Builtin::string_concat => "string_concat"@,
        Builtin::string_eq => "string_eq"@,
        Builtin::string_ne => "string_ne"@,
        Builtin::string_lt => "string_lt"@,
        Builtin::string_le => "string_le"@,
        Builtin::string_gt => "string_gt"@,
        Builtin::string_ge => "string_ge"@,
        Builtin::bool_and => "bool_and"@,
        Builtin::bool_or => "bool_or"@,
        Builtin::bool_xor => "bool_xor"@,
        Builtin::bool_eq => "bool_eq"@,
        Builtin::bool_ne => "bool_ne"@,
        Builtin::pow => "pow"@,
        Builtin::exp => "exp"@,
        Builtin::ln => "ln"@,
    }
}

impl Builtin {
    /// The name of this operation.
    pub fn name(&self) -> (s: &'static str)
        ensures
            s@ == builtin_name(*self),
    {
        match self {
            Builtin::int_add => "int_add",
            Builtin::int_sub => "int_sub",
            Builtin::int_mul => "int_mul",
            Builtin::int_div => "int_div",
            Builtin::int_mod => "int_mod",
            Builtin::int_and => "int_and",
            Builtin::int_or => "int_or",
            Builtin::int_xor => "int_xor",
            Builtin::int_eq => "int_eq",
            Builtin::int_ne => "int_ne",
            Builtin::int_lt => "int_lt",
            Builtin::int_le => "int_le",
            Builtin::int_gt => "int_gt",
            Builtin::int_ge => "int_ge",
            Builtin::float_add => "float_add",
            Builtin::float_sub => "float_sub",
            Builtin::float_mul => "float_mul",
            Builtin::float_div => "float_div",
            Builtin::float_mod => "float_mod",
            Builtin::float_eq => "float_eq",
            Builtin::float_ne => "float_ne",
            Builtin::float_lt => "float_lt",
            Builtin::float_le => "float_le",
            Builtin::float_gt => "float_gt",
            Builtin::float_ge => "float_ge",
            Builtin::string_concat => "string_concat",
            Builtin::string_eq => "string_eq",
            Builtin::string_ne => "string_ne",
            Builtin::string_lt => "string_lt",
            Builtin::string_le => "string_le",
            Builtin::string_gt => "string_gt",
            Builtin::string_ge => "string_ge",
            Builtin::bool_and => "bool_and",
            Builtin::bool_or => "bool_or",
            Builtin::bool_xor => "bool_xor",
            Builtin::bool_eq => "bool_eq",
            Builtin::bool_ne => "bool_ne",
            Builtin::pow => "pow",
            Builtin::exp => "exp",
            Builtin::ln => "ln",
        }
    }
}

} // verus!
