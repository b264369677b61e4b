//! Throughput counters: how many units of work one iteration of a
//! benchmarked function processes.

use vstd::prelude::*;
use vstd::layout::{size_of, spec_size_of_val};
use vstd::string::{StringSliceAdditionalSpecFns, StrSliceExecFns};

verus! {

broadcast use vstd::layout::layout_of_slices, vstd::slice::axiom_spec_len;

/// Widest unsigned count the counter model supports: wide enough for any
/// in-memory size or element count.
pub type MaxCountUInt = u64;

/// Unsigned integer types a count can be supplied as.
pub trait CountUInt: Sized {
    /// The supplied value, read as the widest supported count.
    spec fn spec_count(self) -> MaxCountUInt;

    /// Widens the value losslessly.
    fn into_max_uint(self) -> (r: MaxCountUInt)
        ensures
            r == self.spec_count(),
    ;
}

impl CountUInt for u8 {
    open spec fn spec_count(self) -> MaxCountUInt {
        self as u64
    }

    fn into_max_uint(self) -> (r: MaxCountUInt) {
        self as u64
    }
}

impl CountUInt for u16 {
    open spec fn spec_count(self) -> MaxCountUInt {
        self as u64
    }

    fn into_max_uint(self) -> (r: MaxCountUInt) {
        self as u64
    }
}

impl CountUInt for u32 {
    open spec fn spec_count(self) -> MaxCountUInt {
        self as u64
    }

    fn into_max_uint(self) -> (r: MaxCountUInt) {
        self as u64
    }
}

impl CountUInt for u64 {
    open spec fn spec_count(self) -> MaxCountUInt {
        self
    }

    fn into_max_uint(self) -> (r: MaxCountUInt) {
        self
    }
}

impl CountUInt for usize {
    open spec fn spec_count(self) -> MaxCountUInt {
        self as u64
    }

    fn into_max_uint(self) -> (r: MaxCountUInt) {
        self as u64
    }
}

/// Counts the number of values processed in each iteration of a benchmarked
/// function.
pub trait Counter: Sized {

}

/// Process N bytes.
#[derive(Clone, Copy, Debug, PartialEq, Eq, PartialOrd, Ord, Structural)]
pub struct Bytes {
    count: MaxCountUInt,
}

/// Process N Unicode scalar values. A common baseline when comparing
/// benchmarks across text encodings.
#[derive(Clone, Copy, Debug, PartialEq, Eq, PartialOrd, Ord, Structural)]
pub struct Chars {
    count: MaxCountUInt,
}

/// Process N items.
#[derive(Clone, Copy, Debug, PartialEq, Eq, PartialOrd, Ord, Structural)]
pub struct Items {
    count: MaxCountUInt,
}

impl Counter for Bytes {

}

impl Counter for Chars {

}

impl Counter for Items {

}

impl Bytes {
    /// The counted byte quantity.
    pub closed spec fn spec_count(&self) -> MaxCountUInt {
        self.count
    }

    /// Count N bytes.
    pub fn new<N: CountUInt>(count: N) -> (r: Self)
        ensures
            r.spec_count() == count.spec_count(),
    {
        Bytes { count: count.into_max_uint() }
    }

    /// Counts the in-memory size of a type.
    pub fn of<T>() -> (r: Self)
        ensures
            r.spec_count() == size_of::<T>(),
    {
        Bytes { count: core::mem::size_of::<T>() as MaxCountUInt }
    }

    /// Counts the in-memory size of a value, dynamically sized values
    /// included.
    pub fn of_val<T: ?Sized>(val: &T) -> (r: Self)
        ensures
            r.spec_count() == spec_size_of_val(val),
    {
        Bytes { count: core::mem::size_of_val(val) as MaxCountUInt }
    }

    /// Counts the bytes of UTF-8 text content.
    pub fn of_str(s: &str) -> (r: Self)
        ensures
            r.spec_count() == s.spec_bytes().len(),
    {
        Bytes { count: s.as_bytes().len() as MaxCountUInt }
    }

    /// Counts the bytes of a slice: its element count times the element
    /// size.
    pub fn of_slice<T>(s: &[T]) -> (r: Self)
        ensures
            r.spec_count() == s@.len() * size_of::<T>(),
    {
        Bytes { count: core::mem::size_of_val(s) as MaxCountUInt }
    }
}

impl Chars {
    /// The counted code-point quantity.
    pub closed spec fn spec_count(&self) -> MaxCountUInt {
        self.count
    }

    /// Count N Unicode scalar values.
    pub fn new<N: CountUInt>(count: N) -> (r: Self)
        ensures
            r.spec_count() == count.spec_count(),
    {
        Chars { count: count.into_max_uint() }
    }

    /// Counts the Unicode scalar values of text content: an O(n) scan, since
    /// code-point count cannot be read off the byte length.
    pub fn of_str(s: &str) -> (r: Self)
        ensures
            r.spec_count() == s@.len(),
    {
        Chars { count: s.unicode_len() as MaxCountUInt }
    }
}

impl Items {
    /// The counted item quantity.
    pub closed spec fn spec_count(&self) -> MaxCountUInt {
        self.count
    }

    /// Count N items.
    pub fn new<N: CountUInt>(count: N) -> (r: Self)
        ensures
            r.spec_count() == count.spec_count(),
    {
        Items { count: count.into_max_uint() }
    }
}

/// The numerical base used when rendering a byte count.
#[derive(Clone, Copy, Debug, PartialEq, Eq, Structural)]
#[non_exhaustive]
pub enum BytesFormat {
    /// Powers of 1000, starting with KB (kilobyte).
    Decimal,
    /// Powers of 1024, starting with KiB (kibibyte).
    Binary,
}

impl Default for BytesFormat {
    /// Decimal scaling is the default.
    fn default() -> (r: Self)
        ensures
            r == BytesFormat::Decimal,
    {
        BytesFormat::Decimal
    }
}

} // verus!
