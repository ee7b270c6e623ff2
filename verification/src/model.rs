//! The two record types and the cleaning pass between them.

use vstd::prelude::*;

verus! {

/// A real number carried as the 64-bit pattern of an IEEE-754 double.
///
/// The library moves such values around and never interprets them, so two
/// values are equal here exactly when their bit patterns are.
#[derive(Debug, Clone, Copy, PartialEq, Eq)]
pub struct Real {
    pub bits: u64,
}

impl Real {
    /// Wraps the bit pattern of a double.
    pub fn from_bits(bits: u64) -> (r: Real)
        ensures
            r.bits == bits,
    {
        Real { bits }
    }

    /// Gives back the bit pattern that `from_bits` took.
    pub fn to_bits(self) -> (bits: u64)
        ensures
            bits == self.bits,
    {
        self.bits
    }
}

/// One row of the source table, as parsed.
#[derive(Debug, Clone, Copy, PartialEq, Eq)]
pub struct DirtyHouseRecord {
    pub area: Real,
    pub bedrooms: u64,
    pub bathrooms: Real,
    pub floors: Real,
    pub year_built: Real,
    pub price: u64,
}

/// One row after the cleaning pass.
#[derive(Debug, Clone, Copy, PartialEq, Eq)]
pub struct CleanHouseRecord {
    pub area: Real,
    pub bedrooms: u64,
    pub bathrooms: Real,
    pub floors: Real,
    pub year_built: Real,
    pub price: u64,
}

impl Default for CleanHouseRecord {
    /// A record whose every field is zero.
    fn default() -> (r: CleanHouseRecord)
        ensures
            r.area.bits == 0,
            r.bedrooms == 0,
            r.bathrooms.bits == 0,
            r.floors.bits == 0,
            r.year_built.bits == 0,
            r.price == 0,
    {
        let zero = Real::from_bits(0);
        CleanHouseRecord {
            area: zero,
            bedrooms: 0,
            bathrooms: zero,
            floors: zero,
            year_built: zero,
            price: 0,
        }
    }
}

/// The clean record that a raw record stands for: the same six fields.
pub open spec fn cleaned(r: DirtyHouseRecord) -> CleanHouseRecord {
    CleanHouseRecord {
        area: r.area,
        bedrooms: r.bedrooms,
        bathrooms: r.bathrooms,
        floors: r.floors,
        year_built: r.year_built,
        price: r.price,
    }
}

/// Cleans one raw record. No field is changed, nothing is rejected.
pub fn clean_csv(r: DirtyHouseRecord) -> (c: CleanHouseRecord)
    ensures
        c == cleaned(r),
        c.area == r.area,
        c.bedrooms == r.bedrooms,
        c.bathrooms == r.bathrooms,
        c.floors == r.floors,
        c.year_built == r.year_built,
        c.price == r.price,
{
    CleanHouseRecord {
        area: r.area,
        bedrooms: r.bedrooms,
        bathrooms: r.bathrooms,
        floors: r.floors,
        year_built: r.year_built,
        price: r.price,
    }
}

} // verus!
