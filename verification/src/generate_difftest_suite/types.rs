//! C types by their spelling.
use crate::text::{same, trim, trimmed};
use vstd::prelude::*;

verus! {

/// The type is `void`.
pub open spec fn void_type(ty: Seq<char>) -> bool {
    trimmed(ty) == "void"@
}

pub fn is_void_type(ty: &str) -> (r: bool)
    ensures
        r == void_type(ty@),
{
    same(trim(ty), "void")
}

/// The spelling is that of an integer or floating-point type whose values can
/// be compared.
pub open spec fn scalar_name(t: Seq<char>) -> bool {
    ||| t == "int"@
    ||| t == "unsigned int"@
    ||| t == "long"@
    ||| t == "unsigned long"@
    ||| t == "long long"@
    ||| t == "unsigned long long"@
    ||| t == "short"@
    ||| t == "unsigned short"@
    ||| t == "char"@
    ||| t == "unsigned char"@
    ||| t == "signed char"@
    ||| t == "float"@
    ||| t == "double"@
    ||| t == "long double"@
    ||| t == "size_t"@
    ||| t == "ssize_t"@
    ||| t == "int8_t"@
    ||| t == "int16_t"@
    ||| t == "int32_t"@
    ||| t == "int64_t"@
    ||| t == "uint8_t"@
    ||| t == "uint16_t"@
    ||| t == "uint32_t"@
    ||| t == "uint64_t"@
    ||| t == "ptrdiff_t"@
    ||| t == "intptr_t"@
    ||| t == "uintptr_t"@
    ||| t == "bool"@
    ||| t == "_Bool"@
}

pub fn is_scalar_type(ty: &str) -> (r: bool)
    ensures
        r == scalar_name(trimmed(ty@)),
{
    let t = trim(ty);
    same(t, "int")
        || same(t, "unsigned int")
        || same(t, "long")
        || same(t, "unsigned long")
        || same(t, "long long")
        || same(t, "unsigned long long")
        || same(t, "short")
        || same(t, "unsigned short")
        || same(t, "char")
        || same(t, "unsigned char")
        || same(t, "signed char")
        || same(t, "float")
        || same(t, "double")
        || same(t, "long double")
        || same(t, "size_t")
        || same(t, "ssize_t")
        || same(t, "int8_t")
        || same(t, "int16_t")
        || same(t, "int32_t")
        || same(t, "int64_t")
        || same(t, "uint8_t")
        || same(t, "uint16_t")
        || same(t, "uint32_t")
        || same(t, "uint64_t")
        || same(t, "ptrdiff_t")
        || same(t, "intptr_t")
        || same(t, "uintptr_t")
        || same(t, "bool")
        || same(t, "_Bool")
}

/// The spelling is that of a C string.
pub open spec fn string_name(t: Seq<char>) -> bool {
    t == "char *"@ || t == "const char *"@ || t == "char*"@ || t == "const char*"@
}

pub fn is_string_name(t: &str) -> (r: bool)
    ensures
        r == string_name(t@),
{
    same(t, "char *") || same(t, "const char *") || same(t, "char*") || same(t, "const char*")
}

pub fn is_string_type(ty: &str) -> (r: bool)
    ensures
        r == string_name(trimmed(ty@)),
{
    is_string_name(trim(ty))
}

} // verus!
