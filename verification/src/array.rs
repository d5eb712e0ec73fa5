//! Arrays and array builders.
//!
//! An [`Array`] is an immutable, typed, length-bearing view over a value
//! buffer and an optional validity bitmap.  An [`ArrayBuilder`] accumulates
//! typed values, folds optional validity bits into a bitmap, and seals an
//! array when finished.

use vstd::prelude::*;

use crate::bits::{
    bitmap_bit, count_false, count_nulls, fill_bitmap, get_bit, lemma_count_nulls_all_true,
    lemma_count_nulls_bound,
};
use crate::buffer::{growth_fits, Buffer, BufferBuilder, MAX_BUFFER_CAPACITY};
use crate::error::{ArrowError, ErrorKind};
use crate::pool::MemoryPool;
use crate::ty::{spec_value_size, DataType, DataTypeV};

verus! {

broadcast use Buffer::lemma_view_len, BufferBuilder::lemma_builder_wf;

/// An immutable, typed array: a data type, a length, a null count, a
/// value buffer, and an optional validity bitmap.
///
/// Without a bitmap every entry is valid and the null count is zero.
#[derive(Debug)]
pub struct Array {
    data_type: DataType,
    length: usize,
    null_count: usize,
    values: Buffer,
    validity: Option<Buffer>,
}

impl Array {
    pub closed spec fn spec_type(self) -> DataTypeV {
        self.data_type@
    }

    pub closed spec fn spec_len(self) -> nat {
        self.length as nat
    }

    pub closed spec fn spec_null_count(self) -> nat {
        self.null_count as nat
    }

    /// The raw value bytes.
    pub closed spec fn spec_values(self) -> Seq<u8> {
        self.values@
    }

    /// The raw bitmap bytes, if a bitmap is present.
    pub closed spec fn spec_validity(self) -> Option<Seq<u8>> {
        match self.validity {
            Some(b) => Some(b@),
            None => None,
        }
    }

    /// Whether entry `i` is valid (non-null).
    pub open spec fn valid_at(self, i: int) -> bool {
        match self.spec_validity() {
            Some(bytes) => bitmap_bit(bytes, i),
            None => true,
        }
    }

    /// The validity of every entry, in order.
    pub open spec fn valid_seq(self) -> Seq<bool> {
        Seq::new(self.spec_len(), |i: int| self.valid_at(i))
    }

    /// The bytes of pool accounting the array's buffers carry.
    pub closed spec fn spec_footprint(self) -> nat {
        self.values.spec_footprint() + match self.validity {
            Some(b) => b.spec_footprint(),
            None => 0,
        }
    }

    pub closed spec fn wf(self) -> bool {
        &&& self.values.wf()
        &&& self.values@.len() == self.spec_len() * spec_value_size(self.spec_type())
        &&& match self.validity {
            Some(b) => b.wf() && b@.len() == (self.spec_len() + 7) / 8,
            None => true,
        }
        &&& self.null_count as nat == count_nulls(self.valid_seq())
        &&& self.null_count <= self.length
    }

    /// What well-formedness guarantees: one value's width of bytes per
    /// entry, one bit per entry when a bitmap is present, and a null
    /// count that counts exactly the unset bits.
    pub broadcast proof fn lemma_array_wf(self)
        requires
            #[trigger] self.wf(),
        ensures
            self.spec_values().len() == self.spec_len() * spec_value_size(self.spec_type()),
            match self.spec_validity() {
                Some(b) => b.len() == (self.spec_len() + 7) / 8,
                None => true,
            },
            self.spec_null_count() == count_nulls(self.valid_seq()),
            self.spec_null_count() <= self.spec_len(),
    {
    }

    /// Assembles an array from its parts, re-deriving the null count
    /// from the bitmap.
    ///
    /// Fails with a validation error when the value buffer does not hold
    /// exactly one value's width per entry, or the bitmap does not hold
    /// one bit per entry.
    pub fn from_parts(data_type: DataType, length: usize, values: Buffer, validity: Option<
        Buffer,
    >) -> (r: Result<Array, ArrowError>)
        requires
            values.wf(),
            match validity {
                Some(b) => b.wf(),
                None => true,
            },
            length * spec_value_size(data_type@) <= usize::MAX,
        ensures
            r is Ok <==> {
                &&& values@.len() == length * spec_value_size(data_type@)
                &&& match validity {
                    Some(b) => b@.len() == (length + 7) / 8,
                    None => true,
                }
            },
            match r {
                Ok(arr) => {
                    &&& arr.wf()
                    &&& arr.spec_type() == data_type@
                    &&& arr.spec_len() == length
                    &&& arr.spec_values() == values@
                    &&& arr.spec_validity() == match validity {
                        Some(b) => Some(b@),
                        None => None::<Seq<u8>>,
                    }
                    &&& arr.spec_footprint() == values.spec_footprint() + match validity {
                        Some(b) => b.spec_footprint(),
                        None => 0nat,
                    }
                },
                Err(e) => e.kind == ErrorKind::Validation,
            },
    {
        let width = data_type.value_size();
        let expected = length * width;
        if values.size() != expected {
            return Err(
                ArrowError::new(ErrorKind::Validation, "value buffer does not match the length"),
            );
        }
        match validity {
            Some(bitmap) => {
                let nbytes = if length == 0 {
                    0
                } else {
                    (length - 1) / 8 + 1
                };
                assert(nbytes == (length + 7) / 8);
                if bitmap.size() != nbytes {
                    return Err(
                        ArrowError::new(
                            ErrorKind::Validation,
                            "validity bitmap does not match the length",
                        ),
                    );
                }
                let null_count = count_bitmap_nulls(&bitmap, length);
                let arr = Array {
                    data_type,
                    length,
                    null_count,
                    values,
                    validity: Some(bitmap),
                };
                proof {
                    assert(arr.valid_seq() =~= Seq::new(
                        length as nat,
                        |i: int| bitmap_bit(arr.spec_validity()->0, i),
                    ));
                    lemma_count_nulls_bound(arr.valid_seq());
                }
                Ok(arr)
            },
            None => {
                let arr = Array { data_type, length, null_count: 0, values, validity: None };
                proof {
                    lemma_count_nulls_all_true(arr.valid_seq());
                }
                Ok(arr)
            },
        }
    }

    /// The number of entries.
    pub fn len(&self) -> (n: usize)
        ensures
            n == self.spec_len(),
    {
        self.length
    }

    /// The number of null entries.
    pub fn null_count(&self) -> (n: usize)
        ensures
            n == self.spec_null_count(),
    {
        self.null_count
    }

    /// The array's data type.
    pub fn arr_type(&self) -> (dt: &DataType)
        ensures
            dt@ == self.spec_type(),
    {
        &self.data_type
    }

    /// The number of raw value bytes.
    pub fn values_size(&self) -> (n: usize)
        requires
            self.wf(),
        ensures
            n == self.spec_values().len(),
    {
        self.values.size()
    }

    /// The raw value byte at position `i`.
    pub fn value_byte(&self, i: usize) -> (b: u8)
        requires
            self.wf(),
            i < self.spec_values().len(),
        ensures
            b == self.spec_values()[i as int],
    {
        self.values.data_at(i)
    }

    /// Copies the raw value bytes out.
    pub fn values_to_vec(&self) -> (v: Vec<u8>)
        requires
            self.wf(),
        ensures
            v@ == self.spec_values(),
    {
        self.values.to_vec()
    }

    /// Whether a validity bitmap is present.
    pub fn has_validity(&self) -> (r: bool)
        ensures
            r == (self.spec_validity() is Some),
    {
        match &self.validity {
            Some(_) => true,
            None => false,
        }
    }

    /// Copies the raw bitmap bytes out, if a bitmap is present.
    pub fn validity_bytes(&self) -> (r: Option<Vec<u8>>)
        requires
            self.wf(),
        ensures
            match r {
                Some(v) => self.spec_validity() == Some(v@),
                None => self.spec_validity() is None,
            },
    {
        match &self.validity {
            Some(b) => Some(b.to_vec()),
            None => None,
        }
    }

    /// The byte length of the bitmap, if one is present.
    pub fn validity_size(&self) -> (r: Option<usize>)
        requires
            self.wf(),
        ensures
            match r {
                Some(n) => self.spec_validity() matches Some(bytes) && n == bytes.len(),
                None => self.spec_validity() is None,
            },
    {
        match &self.validity {
            Some(b) => Some(b.size()),
            None => None,
        }
    }

    /// Whether entry `i` is valid (non-null).
    pub fn is_valid(&self, i: usize) -> (r: bool)
        requires
            self.wf(),
            i < self.spec_len(),
        ensures
            r == self.valid_at(i as int),
    {
        match &self.validity {
            Some(b) => {
                assert(i / 8 < (self.spec_len() + 7) / 8);
                get_bit(b.data_at(i / 8), (i % 8) as u8)
            },
            None => true,
        }
    }

    /// Structural equality: type, length, raw value bytes, and raw
    /// bitmap bytes when present.
    pub fn equals(&self, other: &Array) -> (r: bool)
        requires
            self.wf(),
            other.wf(),
        ensures
            r == spec_arrays_equal(*self, *other),
    {
        if !self.data_type.equals(&other.data_type) {
            return false;
        }
        if self.length != other.length {
            return false;
        }
        if !buffers_equal(&self.values, &other.values) {
            return false;
        }
        match (&self.validity, &other.validity) {
            (None, None) => true,
            (Some(a), Some(b)) => buffers_equal(a, b),
            _ => false,
        }
    }

    /// Returns the array's buffers to the pool they were drawn from.
    pub fn release(self, pool: &mut MemoryPool)
        requires
            self.wf(),
            self.spec_footprint() <= old(pool).bytes(),
        ensures
            final(pool).bytes() == old(pool).bytes() - self.spec_footprint(),
    {
        let Array { data_type: _, length: _, null_count: _, values, validity } = self;
        values.release(pool);
        match validity {
            Some(b) => b.release(pool),
            None => {},
        }
    }
}

/// Whether two arrays are equal: same type, length, raw value bytes,
/// and raw bitmap bytes (both absent, or both present and equal).
pub open spec fn spec_arrays_equal(a: Array, b: Array) -> bool {
    &&& a.spec_type() == b.spec_type()
    &&& a.spec_len() == b.spec_len()
    &&& a.spec_values() == b.spec_values()
    &&& a.spec_validity() == b.spec_validity()
}

/// Byte-for-byte equality of the reported contents of two buffers.
fn buffers_equal(a: &Buffer, b: &Buffer) -> (r: bool)
    requires
        a.wf(),
        b.wf(),
    ensures
        r == (a@ == b@),
{
    if a.size() != b.size() {
        return false;
    }
    let n = a.size();
    let mut i: usize = 0;
    while i < n
        invariant
            a.wf(),
            b.wf(),
            n == a@.len(),
            n == b@.len(),
            i <= n,
            forall|j: int| 0 <= j < i ==> a@[j] == b@[j],
        decreases n - i,
    {
        if a.data_at(i) != b.data_at(i) {
            return false;
        }
        i = i + 1;
    }
    proof {
        assert(a@ =~= b@);
    }
    true
}

/// Counts the unset bits among the first `length` of a bitmap.
fn count_bitmap_nulls(bitmap: &Buffer, length: usize) -> (c: usize)
    requires
        bitmap.wf(),
        bitmap@.len() == (length + 7) / 8,
    ensures
        c == count_nulls(Seq::new(length as nat, |i: int| bitmap_bit(bitmap@, i))),
{
    let ghost vs = Seq::new(length as nat, |i: int| bitmap_bit(bitmap@, i));
    let mut c: usize = 0;
    let mut i: usize = 0;
    proof {
        assert(vs.take(0) =~= Seq::<bool>::empty());
    }
    while i < length
        invariant
            bitmap.wf(),
            bitmap@.len() == (length + 7) / 8,
            vs == Seq::new(length as nat, |j: int| bitmap_bit(bitmap@, j)),
            i <= length,
            c <= i,
            c == count_nulls(vs.take(i as int)),
        decreases length - i,
    {
        proof {
            assert(i / 8 < (length + 7) / 8);
            assert(vs.take(i + 1).drop_last() =~= vs.take(i as int));
            assert(vs.take(i + 1).last() == vs[i as int]);
        }
        if !get_bit(bitmap.data_at(i / 8), (i % 8) as u8) {
            c = c + 1;
        }
        i = i + 1;
    }
    proof {
        assert(vs.take(length as int) =~= vs);
    }
    c
}

/// An exclusively-owned, typed accumulator that produces an [`Array`].
///
/// Values arrive as raw bytes, `count` fixed-width values at a time,
/// together with an optional validity bit per value; absence of the bits
/// means every appended value is valid, and no bitmap is materialized
/// unless some call supplies bits.
pub struct ArrayBuilder {
    data_type: DataType,
    values: BufferBuilder,
    bits: Option<Vec<bool>>,
    length: usize,
}

impl ArrayBuilder {
    pub closed spec fn spec_type(self) -> DataTypeV {
        self.data_type@
    }

    pub closed spec fn spec_len(self) -> nat {
        self.length as nat
    }

    /// The raw value bytes appended so far.
    pub closed spec fn written(self) -> Seq<u8> {
        self.values.written()
    }

    /// The validity of every appended value, in order.
    pub closed spec fn valid_bits(self) -> Seq<bool> {
        match self.bits {
            Some(b) => b@,
            None => Seq::new(self.length as nat, |i: int| true),
        }
    }

    /// Whether some append supplied validity bits.
    pub closed spec fn has_bitmap(self) -> bool {
        self.bits is Some
    }

    /// The capacity of the value accumulator, all charged to the pool.
    pub closed spec fn spec_values_capacity(self) -> nat {
        self.values.spec_capacity()
    }

    pub closed spec fn wf(self) -> bool {
        &&& self.values.wf()
        &&& self.values.spec_len() == self.spec_len() * spec_value_size(self.spec_type())
        &&& spec_value_size(self.spec_type()) >= 1
        &&& match self.bits {
            Some(b) => b@.len() == self.length as nat,
            None => true,
        }
        &&& self.valid_bits().len() == self.spec_len()
    }

    /// A fresh builder for a fixed-width data type.
    pub fn new(data_type: DataType) -> (b: ArrayBuilder)
        requires
            spec_value_size(data_type@) >= 1,
        ensures
            b.wf(),
            b.spec_type() == data_type@,
            b.spec_len() == 0,
            b.written() == Seq::<u8>::empty(),
            b.valid_bits() == Seq::<bool>::empty(),
            !b.has_bitmap(),
            b.spec_values_capacity() == 0,
    {
        let b = ArrayBuilder { data_type, values: BufferBuilder::new(), bits: None, length: 0 };
        proof {
            assert(b.valid_bits() =~= Seq::<bool>::empty());
            assert(0nat * spec_value_size(b.spec_type()) == 0) by (nonlinear_arith);
            assert(b.wf());
        }
        b
    }

    /// Pre-reserves storage for `capacity` values.
    ///
    /// Succeeds exactly when the byte request is within the supported
    /// limit and either already fits the current capacity or the pool
    /// can absorb the growth.
    pub fn init(&mut self, pool: &mut MemoryPool, capacity: usize) -> (r: Result<(), ArrowError>)
        requires
            old(self).wf(),
            old(self).spec_values_capacity() <= old(pool).bytes(),
        ensures
            final(self).wf(),
            final(self).spec_type() == old(self).spec_type(),
            final(self).spec_len() == old(self).spec_len(),
            final(self).written() == old(self).written(),
            final(self).valid_bits() == old(self).valid_bits(),
            final(self).has_bitmap() == old(self).has_bitmap(),
            r is Ok <==> (capacity * spec_value_size(old(self).spec_type()) <= MAX_BUFFER_CAPACITY
                && (capacity * spec_value_size(old(self).spec_type()) <= old(
                self,
            ).spec_values_capacity() || growth_fits(
                old(pool).bytes(),
                old(self).spec_values_capacity(),
                (capacity * spec_value_size(old(self).spec_type())) as nat,
            ))),
            r is Ok ==> final(pool).bytes() == old(pool).bytes() - old(self).spec_values_capacity()
                + final(self).spec_values_capacity(),
            r is Err ==> final(pool).bytes() == old(pool).bytes()
                && final(self).spec_values_capacity() == old(self).spec_values_capacity(),
            r is Err ==> r->Err_0.kind == ErrorKind::Allocation,
    {
        let width = self.data_type.value_size();
        if capacity > MAX_BUFFER_CAPACITY {
            proof {
                assert(capacity * spec_value_size(self.spec_type()) >= capacity * 1)
                    by (nonlinear_arith)
                    requires
                        spec_value_size(self.spec_type()) >= 1,
                ;
            }
            return Err(ArrowError::new(ErrorKind::Allocation, "reservation over the limit"));
        }
        proof {
            assert(capacity * width <= 0x4000_0000 * 8) by (nonlinear_arith)
                requires
                    capacity <= 0x4000_0000,
                    width <= 8,
            ;
        }
        let nbytes64: u64 = (capacity as u64) * (width as u64);
        if nbytes64 > MAX_BUFFER_CAPACITY as u64 {
            return Err(ArrowError::new(ErrorKind::Allocation, "reservation over the limit"));
        }
        let nbytes: usize = nbytes64 as usize;
        let current = self.values.capacity();
        if nbytes <= current {
            return Ok(());
        }
        match self.values.resize(pool, nbytes) {
            Ok(()) => Ok(()),
            Err(e) => Err(e),
        }
    }

    /// Appends `count` fixed-width values given as raw bytes, together
    /// with one validity bit per value when `validity` is supplied.
    ///
    /// Without validity bits the values count as valid; the first call
    /// that does supply bits materializes the bitmap, marking everything
    /// appended before as valid.
    pub fn append(
        &mut self,
        pool: &mut MemoryPool,
        values: &[u8],
        count: usize,
        validity: Option<&[bool]>,
    ) -> (r: Result<(), ArrowError>)
        requires
            old(self).wf(),
            old(self).spec_values_capacity() <= old(pool).bytes(),
            values@.len() == count * spec_value_size(old(self).spec_type()),
            match validity {
                Some(v) => v@.len() == count,
                None => true,
            },
        ensures
            final(self).wf(),
            final(self).spec_type() == old(self).spec_type(),
            r is Ok <==> (old(self).written().len() + values@.len() <= old(
                self,
            ).spec_values_capacity() || growth_fits(
                old(pool).bytes(),
                old(self).spec_values_capacity(),
                (old(self).written().len() + values@.len()) as nat,
            )),
            match r {
                Ok(()) => {
                    &&& final(self).spec_len() == old(self).spec_len() + count
                    &&& final(self).written() == old(self).written() + values@
                    &&& final(self).valid_bits() == old(self).valid_bits() + (match validity {
                        Some(v) => v@,
                        None => Seq::new(count as nat, |i: int| true),
                    })
                    &&& final(self).has_bitmap() == (old(self).has_bitmap() || validity is Some)
                    &&& final(pool).bytes() == old(pool).bytes() - old(
                        self,
                    ).spec_values_capacity() + final(self).spec_values_capacity()
                },
                Err(e) => {
                    &&& e.kind == ErrorKind::Allocation
                    &&& final(self).spec_len() == old(self).spec_len()
                    &&& final(self).written() == old(self).written()
                    &&& final(self).valid_bits() == old(self).valid_bits()
                    &&& final(self).has_bitmap() == old(self).has_bitmap()
                    &&& final(pool).bytes() == old(pool).bytes()
                },
            },
    {
        match self.values.append(pool, values) {
            Ok(()) => {},
            Err(e) => {
                return Err(e);
            },
        }
        let ghost old_valid = old(self).valid_bits();
        match validity {
            Some(v) => {
                if self.bits.is_none() {
                    let mut fresh: Vec<bool> = Vec::new();
                    let mut k: usize = 0;
                    while k < self.length
                        invariant
                            k <= self.length,
                            fresh@ == Seq::new(k as nat, |i: int| true),
                        decreases self.length - k,
                    {
                        fresh.push(true);
                        proof {
                            assert(fresh@ =~= Seq::new((k + 1) as nat, |i: int| true));
                        }
                        k = k + 1;
                    }
                    proof {
                        assert(fresh@ =~= old_valid);
                    }
                    self.bits = Some(fresh);
                }
                match &mut self.bits {
                    Some(b) => {
                        let mut k: usize = 0;
                        while k < v.len()
                            invariant
                                k <= v@.len(),
                                b@ == old_valid + v@.take(k as int),
                            decreases v@.len() - k,
                        {
                            b.push(v[k]);
                            proof {
                                assert(b@ =~= old_valid + v@.take(k + 1));
                            }
                            k = k + 1;
                        }
                        proof {
                            assert(v@.take(v@.len() as int) =~= v@);
                            assert(b@ =~= old_valid + v@);
                        }
                    },
                    None => {},
                }
            },
            None => {
                match &mut self.bits {
                    Some(b) => {
                        let mut k: usize = 0;
                        while k < count
                            invariant
                                k <= count,
                                b@ == old_valid + Seq::new(k as nat, |i: int| true),
                            decreases count - k,
                        {
                            b.push(true);
                            proof {
                                assert(b@ =~= old_valid + Seq::new((k + 1) as nat, |i: int| true));
                            }
                            k = k + 1;
                        }
                    },
                    None => {},
                }
            },
        }
        proof {
            let ghost n0 = old(self).spec_len();
            let ghost w0 = spec_value_size(old(self).spec_type());
            assert(n0 * w0 + count * w0 >= n0 + count) by (nonlinear_arith)
                requires
                    w0 >= 1,
            ;
        }
        self.length = self.length + count;
        proof {
            let ghost n0 = old(self).spec_len();
            let ghost w = spec_value_size(old(self).spec_type());
            assert((n0 + count) * w == n0 * w + count * w) by (nonlinear_arith);
            if self.bits is None {
                assert(self.valid_bits() =~= old_valid + Seq::new(count as nat, |i: int| true));
            }
        }
        Ok(())
    }

    /// Seals the accumulated values into an array.
    ///
    /// The array's length is the total appended count and its null count
    /// is derived from the bitmap, 0 when no bitmap was materialized.
    /// Succeeds unless the bitmap allocation would overflow the pool's
    /// counter; on failure the builder's storage returns to the pool.
    pub fn finish(self, pool: &mut MemoryPool) -> (r: Result<Array, ArrowError>)
        requires
            self.wf(),
            self.spec_values_capacity() <= old(pool).bytes(),
        ensures
            r is Ok <==> (!self.has_bitmap() || old(pool).bytes() + ((self.spec_len() + 7) / 8)
                <= i64::MAX),
            match r {
                Ok(arr) => {
                    &&& arr.wf()
                    &&& arr.spec_type() == self.spec_type()
                    &&& arr.spec_len() == self.spec_len()
                    &&& arr.spec_values() == self.written()
                    &&& arr.valid_seq() == self.valid_bits()
                    &&& arr.spec_null_count() == count_nulls(self.valid_bits())
                    &&& (arr.spec_validity() is Some) == self.has_bitmap()
                    &&& arr.spec_footprint() == self.spec_values_capacity() + (if self.has_bitmap() {
                        (self.spec_len() + 7) / 8
                    } else {
                        0nat
                    })
                    &&& final(pool).bytes() == old(pool).bytes() + (if self.has_bitmap() {
                        (self.spec_len() + 7) / 8
                    } else {
                        0nat
                    })
                },
                Err(e) => {
                    &&& e.kind == ErrorKind::Allocation
                    &&& final(pool).bytes() == old(pool).bytes() - self.spec_values_capacity()
                },
            },
    {
        let ArrayBuilder { data_type, mut values, bits, length } = self;
        let target = values.len();
        match values.resize(pool, target) {
            Ok(()) => {},
            Err(_) => {
                assert(false);
            },
        }
        match bits {
            None => {
                let arr = Array {
                    data_type,
                    length,
                    null_count: 0,
                    values: values.finish(),
                    validity: None,
                };
                proof {
                    lemma_count_nulls_all_true(arr.valid_seq());
                    assert(arr.valid_seq() =~= self.valid_bits());
                }
                Ok(arr)
            },
            Some(b) => {
                let nbytes = if length == 0 {
                    0
                } else {
                    (length - 1) / 8 + 1
                };
                assert(nbytes == (length + 7) / 8);
                let mut region = match pool.allocate(nbytes) {
                    Ok(region) => region,
                    Err(e) => {
                        values.release(pool);
                        return Err(e);
                    },
                };
                fill_bitmap(&b, &mut region);
                let null_count = count_false(&b);
                proof {
                    lemma_count_nulls_bound(b@);
                }
                let bitmap = Buffer::from_pool_region(region);
                let arr = Array {
                    data_type,
                    length,
                    null_count,
                    values: values.finish(),
                    validity: Some(bitmap),
                };
                proof {
                    assert(arr.valid_seq() =~= b@);
                }
                Ok(arr)
            },
        }
    }

    /// Returns the builder's storage to the pool without sealing an
    /// array.
    pub fn release(self, pool: &mut MemoryPool)
        requires
            self.wf(),
            self.spec_values_capacity() <= old(pool).bytes(),
        ensures
            final(pool).bytes() == old(pool).bytes() - self.spec_values_capacity(),
    {
        let ArrayBuilder { data_type: _, values, bits: _, length: _ } = self;
        values.release(pool);
    }
}

} // verus!
