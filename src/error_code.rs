use vstd::prelude::*;

verus! {

/// The error code carried in the upper 32 bits of a packed value.
pub open spec fn code_of(value: u64) -> u32 {
    (value / 0x1_0000_0000) as u32
}

/// The index carried in the lower 32 bits of a packed value.
pub open spec fn index_of(value: u64) -> u32 {
    (value % 0x1_0000_0000) as u32
}

/// The value that packs `code` above `index`.
pub open spec fn packed(code: u32, index: u32) -> int {
    code as int * 0x1_0000_0000 + index as int
}

/// Splits a packed value into its error code (upper half) and index (lower half).
pub fn split_error_and_index(value: u64) -> (r: (u32, u32))
    ensures
        r.0 == code_of(value),
        r.1 == index_of(value),
        packed(r.0, r.1) == value,
{
    let code = (value >> 32u64) as u32;
    let index = (value & 0xffff_ffffu64) as u32;
    assert(value >> 32u64 == value / 0x1_0000_0000) by (bit_vector);
    assert(value & 0xffff_ffffu64 == value % 0x1_0000_0000) by (bit_vector);
    (code, index)
}

/// Packs an error code and an index into one value, the code in the upper half.
pub fn merge_error_and_index(error_code: u32, index: u32) -> (r: u64)
    ensures
        r == packed(error_code, index),
        code_of(r) == error_code,
        index_of(r) == index,
{
    let code = (error_code as u64) << 32u64;
    let low = index as u64;
    let e = error_code as u64;
    assert(e < 0x1_0000_0000 ==> e << 32u64 == e * 0x1_0000_0000) by (bit_vector);
    assert(low < 0x1_0000_0000 && e < 0x1_0000_0000 ==> (e << 32u64) | low == (e << 32u64)
        + low) by (bit_vector);
    let r = code | low;
    assert(r / 0x1_0000_0000 == error_code as int) by (nonlinear_arith)
        requires
            r == e * 0x1_0000_0000 + low,
            e == error_code,
            low < 0x1_0000_0000,
    ;
    assert(r % 0x1_0000_0000 == index as int) by (nonlinear_arith)
        requires
            r == e * 0x1_0000_0000 + low,
            low == index,
            low < 0x1_0000_0000,
    ;
    r
}

/// Two values packed from the same code and index are equal, and splitting gives
/// back what was merged.
pub proof fn lemma_split_merge_round_trip(code: u32, index: u32)
    ensures
        ({
            let v = packed(code, index);
            0 <= v <= u64::MAX && code_of(v as u64) == code && index_of(v as u64) == index
        }),
{
    let v = packed(code, index);
    assert(0 <= v <= u64::MAX) by (nonlinear_arith)
        requires
            v == code as int * 0x1_0000_0000 + index as int,
            code <= u32::MAX,
            index <= u32::MAX,
    ;
    assert(v / 0x1_0000_0000 == code as int) by (nonlinear_arith)
        requires
            v == code as int * 0x1_0000_0000 + index as int,
            index <= u32::MAX,
            0 <= code,
    ;
    assert(v % 0x1_0000_0000 == index as int) by (nonlinear_arith)
        requires
            v == code as int * 0x1_0000_0000 + index as int,
            index <= u32::MAX,
            0 <= code,
    ;
}

/// The error code and index that a host call last recorded.
pub struct ErrorCodeWrapper {
    code: u32,
    index: u32,
}

impl ErrorCodeWrapper {
    pub fn new() -> (r: Self)
        ensures
            r.code() == 0,
            r.index() == 0,
    {
        Self { code: 0, index: 0 }
    }

    pub closed spec fn code(&self) -> u32 {
        self.code
    }

    pub closed spec fn index(&self) -> u32 {
        self.index
    }

    pub fn set_code(&mut self, code: u32)
        ensures
            final(self).code() == code,
            final(self).index() == old(self).index(),
    {
        self.code = code;
    }

    pub fn set_index(&mut self, index: u32)
        ensures
            final(self).index() == index,
            final(self).code() == old(self).code(),
    {
        self.index = index;
    }

    pub fn get_code(&self) -> (r: u32)
        ensures
            r == self.code(),
    {
        self.code
    }

    pub fn get_index(&self) -> (r: u32)
        ensures
            r == self.index(),
    {
        self.index
    }

    /// Records a packed error value: its code and its index.
    pub fn record(&mut self, value: u64)
        ensures
            final(self).code() == code_of(value),
            final(self).index() == index_of(value),
    {
        let (code, index) = split_error_and_index(value);
        self.set_code(code);
        self.set_index(index);
    }
}

/// The host context of the error-code plugin; it holds no state of its own.
pub struct ErrorCodeContext {}

impl ErrorCodeContext {
    pub fn new() -> (r: Self) {
        ErrorCodeContext {  }
    }
}

} // verus!
