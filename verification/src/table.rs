//! Row batches and tables: structural composition of arrays and columns
//! under a schema.

use vstd::prelude::*;
use vstd::string::StringExecFns;

use crate::array::Array;
use crate::column::Column;
use crate::error::{ArrowError, ErrorKind};
use crate::pool::MemoryPool;
use crate::ty::Schema;

verus! {

/// A fixed-row-count, schema-bound collection of one array per schema
/// field.
#[derive(Debug)]
pub struct RowBatch {
    schema: Schema,
    row_count: usize,
    arrays: Vec<Array>,
}

/// The consistency a row batch is validated against: one array per
/// field, each array of the field's type and of the batch's row count.
pub open spec fn row_batch_valid(b: RowBatch) -> bool {
    &&& b.spec_arrays().len() == b.spec_schema().len()
    &&& forall|i: int|
        0 <= i < b.spec_arrays().len() ==> (#[trigger] b.spec_arrays()[i]).spec_type()
            == b.spec_schema()[i].data_type
    &&& forall|i: int|
        0 <= i < b.spec_arrays().len() ==> (#[trigger] b.spec_arrays()[i]).spec_len()
            == b.spec_rows()
}

impl RowBatch {
    pub closed spec fn spec_schema(self) -> Seq<crate::ty::FieldV> {
        self.schema@
    }

    pub closed spec fn spec_rows(self) -> nat {
        self.row_count as nat
    }

    pub closed spec fn spec_arrays(self) -> Seq<Array> {
        self.arrays@
    }

    pub closed spec fn wf(self) -> bool {
        forall|i: int| 0 <= i < self.arrays@.len() ==> (#[trigger] self.arrays@[i]).wf()
    }

    /// Composes a batch from a schema, a row count and one array per
    /// field; purely structural, never fails.
    pub fn new(schema: Schema, row_count: usize, arrays: Vec<Array>) -> (b: RowBatch)
        requires
            forall|i: int| 0 <= i < arrays@.len() ==> (#[trigger] arrays@[i]).wf(),
        ensures
            b.wf(),
            b.spec_schema() == schema@,
            b.spec_rows() == row_count,
            b.spec_arrays() == arrays@,
    {
        RowBatch { schema, row_count, arrays }
    }

    /// The batch's schema.
    pub fn schema(&self) -> (s: &Schema)
        ensures
            s@ == self.spec_schema(),
    {
        &self.schema
    }

    /// The number of rows.
    pub fn num_rows(&self) -> (n: usize)
        ensures
            n == self.spec_rows(),
    {
        self.row_count
    }

    /// The number of columns.
    pub fn num_cols(&self) -> (n: usize)
        ensures
            n == self.spec_arrays().len(),
    {
        self.arrays.len()
    }

    /// The array standing in column position `i`.
    pub fn column(&self, i: usize) -> (a: &Array)
        requires
            self.wf(),
            i < self.spec_arrays().len(),
        ensures
            *a == self.spec_arrays()[i as int],
            a.wf(),
    {
        &self.arrays[i]
    }

    /// Re-checks the batch against its own schema and row count.
    ///
    /// Succeeds exactly when one array stands per field and every array
    /// has the field's type and the batch's row count.
    pub fn validate(&self) -> (r: Result<(), ArrowError>)
        ensures
            r is Ok <==> row_batch_valid(*self),
            r matches Err(e) ==> (e.kind == ErrorKind::TypeMismatch || e.kind
                == ErrorKind::Validation),
    {
        if self.arrays.len() != self.schema.num_fields() {
            return Err(
                ArrowError::new(ErrorKind::Validation, "one array per schema field is required"),
            );
        }
        let mut i: usize = 0;
        while i < self.arrays.len()
            invariant
                i <= self.arrays@.len(),
                self.arrays@.len() == self.schema@.len(),
                forall|j: int|
                    0 <= j < i ==> (#[trigger] self.arrays@[j]).spec_type()
                        == self.schema@[j].data_type,
                forall|j: int|
                    0 <= j < i ==> (#[trigger] self.arrays@[j]).spec_len() == self.row_count,
            decreases self.arrays@.len() - i,
        {
            let arr = &self.arrays[i];
            if !arr.arr_type().equals(&self.schema.field(i).data_type) {
                return Err(
                    ArrowError::new(ErrorKind::TypeMismatch, "array type does not match its field"),
                );
            }
            if arr.len() != self.row_count {
                return Err(
                    ArrowError::new(ErrorKind::Validation, "array length does not match row count"),
                );
            }
            i = i + 1;
        }
        Ok(())
    }

    /// Returns every array's buffers to the pool they were drawn from.
    pub fn release(self, pool: &mut MemoryPool)
        requires
            self.wf(),
            batch_footprint(self.spec_arrays()) <= old(pool).bytes(),
        ensures
            final(pool).bytes() == old(pool).bytes() - batch_footprint(self.spec_arrays()),
    {
        let RowBatch { schema: _, row_count: _, mut arrays } = self;
        while arrays.len() > 0
            invariant
                forall|i: int| 0 <= i < arrays@.len() ==> (#[trigger] arrays@[i]).wf(),
                batch_footprint(arrays@) <= pool.bytes(),
                pool.bytes() - batch_footprint(arrays@) == old(pool).bytes() - batch_footprint(
                    self.spec_arrays(),
                ),
            decreases arrays@.len(),
        {
            let ghost before = arrays@;
            let arr = match arrays.pop() {
                Some(arr) => arr,
                None => {
                    proof {
                        assert(false);
                    }
                    return ;
                },
            };
            proof {
                assert(before.drop_last() =~= arrays@);
            }
            arr.release(pool);
        }
    }
}

/// The total pool charge of a sequence of arrays.
pub open spec fn batch_footprint(arrays: Seq<Array>) -> nat
    decreases arrays.len(),
{
    if arrays.len() == 0 {
        0
    } else {
        batch_footprint(arrays.drop_last()) + arrays.last().spec_footprint()
    }
}

/// A named, schema-bound, ordered sequence of columns.
pub struct Table {
    name: String,
    schema: Schema,
    columns: Vec<Column>,
}

/// The consistency a table is validated against: one column per field,
/// each column's field equal to the schema's, and every column of one
/// shared length.
pub open spec fn table_valid(t: Table) -> bool {
    &&& t.spec_columns().len() == t.spec_schema().len()
    &&& forall|i: int|
        0 <= i < t.spec_columns().len() ==> (#[trigger] t.spec_columns()[i]).spec_field()
            == t.spec_schema()[i]
    &&& forall|i: int|
        0 <= i < t.spec_columns().len() ==> (#[trigger] t.spec_columns()[i]).spec_array().spec_len()
            == t.spec_num_rows()
}

impl Table {
    pub closed spec fn spec_name(self) -> Seq<char> {
        self.name@
    }

    pub closed spec fn spec_schema(self) -> Seq<crate::ty::FieldV> {
        self.schema@
    }

    pub closed spec fn spec_columns(self) -> Seq<Column> {
        self.columns@
    }

    /// The table's row count: the length of its first column, 0 with no
    /// columns.
    pub open spec fn spec_num_rows(self) -> nat {
        if self.spec_columns().len() == 0 {
            0
        } else {
            self.spec_columns()[0].spec_array().spec_len()
        }
    }

    /// Composes a table; purely structural, never fails.
    pub fn new(name: &str, schema: Schema, columns: Vec<Column>) -> (t: Table)
        ensures
            t.spec_name() == name@,
            t.spec_schema() == schema@,
            t.spec_columns() == columns@,
    {
        Table { name: String::from_str(name), schema, columns }
    }

    /// The table's name.
    pub fn name(&self) -> (n: &String)
        ensures
            n@ == self.spec_name(),
    {
        &self.name
    }

    /// The table's schema.
    pub fn schema(&self) -> (s: &Schema)
        ensures
            s@ == self.spec_schema(),
    {
        &self.schema
    }

    /// The number of columns.
    pub fn num_cols(&self) -> (n: usize)
        ensures
            n == self.spec_columns().len(),
    {
        self.columns.len()
    }

    /// The number of rows.
    pub fn num_rows(&self) -> (n: usize)
        ensures
            n == self.spec_num_rows(),
    {
        if self.columns.len() == 0 {
            0
        } else {
            self.columns[0].len()
        }
    }

    /// The column at position `i`.
    pub fn column(&self, i: usize) -> (c: &Column)
        requires
            i < self.spec_columns().len(),
        ensures
            *c == self.spec_columns()[i as int],
    {
        &self.columns[i]
    }

    /// Re-checks the table against its schema and row count.
    ///
    /// Succeeds exactly when one column stands per field, every column's
    /// field equals the schema's, and every column has the shared length.
    pub fn validate_table_cols(&self) -> (r: Result<(), ArrowError>)
        ensures
            r is Ok <==> table_valid(*self),
            r matches Err(e) ==> (e.kind == ErrorKind::TypeMismatch || e.kind
                == ErrorKind::Validation),
    {
        if self.columns.len() != self.schema.num_fields() {
            return Err(
                ArrowError::new(ErrorKind::Validation, "one column per schema field is required"),
            );
        }
        let num_rows = self.num_rows();
        let mut i: usize = 0;
        while i < self.columns.len()
            invariant
                i <= self.columns@.len(),
                self.columns@.len() == self.schema@.len(),
                num_rows == self.spec_num_rows(),
                forall|j: int|
                    0 <= j < i ==> (#[trigger] self.columns@[j]).spec_field()
                        == self.schema@[j],
                forall|j: int|
                    0 <= j < i ==> (#[trigger] self.columns@[j]).spec_array().spec_len()
                        == num_rows,
            decreases self.columns@.len() - i,
        {
            let col = &self.columns[i];
            if !col.field().equals(self.schema.field(i)) {
                return Err(
                    ArrowError::new(
                        ErrorKind::TypeMismatch,
                        "column field does not match the schema",
                    ),
                );
            }
            if col.len() != num_rows {
                return Err(
                    ArrowError::new(ErrorKind::Validation, "column lengths disagree"),
                );
            }
            i = i + 1;
        }
        Ok(())
    }
}

} // verus!
