use vstd::prelude::*;

verus! {

/// The element types a tensor can be tagged with.
#[derive(Debug, Clone, Copy, PartialEq, Eq, Hash, Structural)]
pub enum BlackDType {
    BlackF16,
    BlackBF16,
    BlackF32,
    BlackF64,
    BlackI8,
    BlackI16,
    BlackI32,
    BlackI64,
    BlackU8,
    BlackBool,
}

/// The width in bytes of one element of `dtype`.
pub open spec fn black_dtype_size(dtype: BlackDType) -> nat {
    match dtype {
        BlackDType::BlackF16 => 2,
        BlackDType::BlackBF16 => 2,
        BlackDType::BlackF32 => 4,
        BlackDType::BlackF64 => 8,
        BlackDType::BlackI8 => 1,
        BlackDType::BlackI16 => 2,
        BlackDType::BlackI32 => 4,
        BlackDType::BlackI64 => 8,
        BlackDType::BlackU8 => 1,
        BlackDType::BlackBool => 1,
    }
}

impl BlackDType {
    pub fn black_size_in_bytes(&self) -> (r: usize)
        ensures
            r == black_dtype_size(*self),
            1 <= r <= 8,
    {
        match self {
            BlackDType::BlackF16 => 2,
            BlackDType::BlackBF16 => 2,
            BlackDType::BlackF32 => 4,
            BlackDType::BlackF64 => 8,
            BlackDType::BlackI8 => 1,
            BlackDType::BlackI16 => 2,
            BlackDType::BlackI32 => 4,
            BlackDType::BlackI64 => 8,
            BlackDType::BlackU8 => 1,
            BlackDType::BlackBool => 1,
        }
    }

    pub fn black_is_float(&self) -> (r: bool)
        ensures
            r == (*self is BlackF16 || *self is BlackBF16 || *self is BlackF32 || *self is BlackF64),
    {
        matches!(
            self,
            BlackDType::BlackF16 | BlackDType::BlackBF16 | BlackDType::BlackF32 | BlackDType::BlackF64
        )
    }

    pub fn black_is_int(&self) -> (r: bool)
        ensures
            r == (*self is BlackI8 || *self is BlackI16 || *self is BlackI32 || *self is BlackI64
                || *self is BlackU8),
    {
        matches!(
            self,
            BlackDType::BlackI8
                | BlackDType::BlackI16
                | BlackDType::BlackI32
                | BlackDType::BlackI64
                | BlackDType::BlackU8
        )
    }
}

} // verus!
