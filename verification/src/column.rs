//! Columns: one array bound to one field.

use vstd::prelude::*;

use crate::array::Array;
use crate::error::{ArrowError, ErrorKind};
use crate::pool::MemoryPool;
use crate::ty::{DataType, Field, FieldV};

verus! {

/// One array bound to one field; validation re-checks that the two
/// agree.
pub struct Column {
    field: Field,
    array: Array,
}

/// The consistency a column is validated against: the field's type is
/// the array's type, the null count is within the length, and a bitmap,
/// when present, holds one bit per entry.
pub open spec fn column_valid(c: Column) -> bool {
    &&& c.spec_field().data_type == c.spec_array().spec_type()
    &&& c.spec_array().spec_null_count() <= c.spec_array().spec_len()
    &&& match c.spec_array().spec_validity() {
        Some(bytes) => bytes.len() == (c.spec_array().spec_len() + 7) / 8,
        None => true,
    }
}

impl Column {
    pub closed spec fn spec_field(self) -> FieldV {
        self.field@
    }

    pub closed spec fn spec_array(self) -> Array {
        self.array
    }

    pub closed spec fn wf(self) -> bool {
        self.array.wf()
    }

    /// Binds a field to an array; purely structural, never fails.
    pub fn new(field: Field, array: Array) -> (c: Column)
        requires
            array.wf(),
        ensures
            c.wf(),
            c.spec_field() == field@,
            c.spec_array() == array,
    {
        Column { field, array }
    }

    /// The number of entries.
    pub fn len(&self) -> (n: usize)
        ensures
            n == self.spec_array().spec_len(),
    {
        self.array.len()
    }

    /// The number of null entries.
    pub fn null_count(&self) -> (n: usize)
        ensures
            n == self.spec_array().spec_null_count(),
    {
        self.array.null_count()
    }

    /// The field's declared data type.
    pub fn column_type(&self) -> (dt: &DataType)
        ensures
            dt@ == self.spec_field().data_type,
    {
        &self.field.data_type
    }

    /// The field this column is bound to.
    pub fn field(&self) -> (f: &Field)
        ensures
            f@ == self.spec_field(),
    {
        &self.field
    }

    /// The underlying array.
    pub fn array(&self) -> (a: &Array)
        ensures
            *a == self.spec_array(),
    {
        &self.array
    }

    /// Re-checks the column's internal consistency.
    ///
    /// Returns a type-mismatch error when the field's and array's types
    /// disagree, and a validation error when the null count exceeds the
    /// length or the bitmap's byte length does not match the length.
    pub fn validate_column_data(&self) -> (r: Result<(), ArrowError>)
        requires
            self.wf(),
        ensures
            r is Ok <==> column_valid(*self),
            r matches Err(e) ==> (e.kind == ErrorKind::TypeMismatch && self.spec_field().data_type
                != self.spec_array().spec_type()) || (e.kind == ErrorKind::Validation
                && self.spec_field().data_type == self.spec_array().spec_type()),
    {
        if !self.field.data_type.equals(self.array.arr_type()) {
            return Err(
                ArrowError::new(ErrorKind::TypeMismatch, "field and array types disagree"),
            );
        }
        if self.null_count() > self.len() {
            return Err(ArrowError::new(ErrorKind::Validation, "null count exceeds length"));
        }
        let length = self.array.len();
        match self.array.validity_size() {
            Some(nbytes) => {
                let expected = if length == 0 {
                    0
                } else {
                    (length - 1) / 8 + 1
                };
                assert(expected == (length + 7) / 8);
                if nbytes != expected {
                    return Err(
                        ArrowError::new(
                            ErrorKind::Validation,
                            "validity bitmap does not match the length",
                        ),
                    );
                }
            },
            None => {},
        }
        Ok(())
    }

    /// Returns the column's buffers to the pool they were drawn from.
    pub fn release(self, pool: &mut MemoryPool)
        requires
            self.wf(),
            self.spec_array().spec_footprint() <= old(pool).bytes(),
        ensures
            final(pool).bytes() == old(pool).bytes() - self.spec_array().spec_footprint(),
    {
        let Column { field: _, array } = self;
        array.release(pool);
    }
}

} // verus!
