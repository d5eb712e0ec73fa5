use arrow::array::{Array, ArrayBuilder};
use arrow::buffer::BufferBuilder;
use arrow::column::Column;
use arrow::error::ErrorKind;
use arrow::ipc::adapter::{row_batch_size, write_row_batch, RowBatchReader};
use arrow::ipc::memory::{AccessMode, MemorySource};
use arrow::pool::MemoryPool;
use arrow::table::{RowBatch, Table};
use arrow::ty::{new_field, new_primitive_type, new_schema, new_string_type, new_struct_type, Ty};

fn f32_bytes(values: &[f32]) -> Vec<u8> {
    let mut out = Vec::new();
    for v in values {
        out.extend_from_slice(&v.to_le_bytes());
    }
    out
}

fn float_array(pool: &mut MemoryPool, values: &[f32]) -> Array {
    let mut builder = ArrayBuilder::new(new_primitive_type(Ty::FLOAT));
    let bytes = f32_bytes(values);
    assert!(builder.append(pool, &bytes, values.len(), None).is_ok());
    builder.finish(pool).unwrap()
}

#[test]
fn test_field() {
    let dt = new_primitive_type(Ty::INT32);
    assert_eq!(4, dt.value_size());
    assert_eq!(dt.to_text(), "int32");

    let dt2 = new_primitive_type(Ty::INT32);
    assert!(dt.equals(&dt2));

    let fp = new_field("f0", dt, false);
    assert_eq!(fp.to_text(), "f0: int32 not null");

    let fp2 = new_field("f0", dt2, false);
    assert!(fp.equals(&fp2));

    let struct_field = new_struct_type(vec![fp, fp2]);
    assert_eq!(struct_field.to_text(), "struct<f0: int32, f0: int32>");
}

#[test]
fn test_schema() {
    let int_type = new_primitive_type(Ty::INT32);
    let float_type = new_primitive_type(Ty::FLOAT);
    let string_type = new_string_type();

    let f0 = new_field("f0", int_type, false);
    let f1 = new_field("f1", float_type, false);
    let f2 = new_field("f2", string_type, false);

    let s = new_schema(vec![f0, f1, f2]);
    assert_eq!(3, s.num_fields());
    assert_eq!(s.field(2).to_text(), "f2: string not null");
}

#[test]
fn test_buffer_resize() {
    let mut pool = MemoryPool::new();
    let mut buf_builder = BufferBuilder::new();
    let val: u8 = 10;

    let s = buf_builder.append(&mut pool, &[val]);
    assert!(s.is_ok());

    let s = buf_builder.resize(&mut pool, 100);
    assert!(s.is_ok());

    assert_eq!(1, buf_builder.len());
    assert_eq!(128, buf_builder.capacity());

    let mut buf = buf_builder.finish();
    assert_eq!(100, buf.size());

    let s = buf.resize(&mut pool, 50);
    assert!(s.is_ok());
    assert_eq!(50, buf.size());
    assert_eq!(128, buf.capacity());

    buf.release(&mut pool);
    assert_eq!(0, pool.bytes_allocated());
}

#[test]
fn test_array() {
    let mut pool = MemoryPool::new();
    let mem_before = pool.bytes_allocated();

    let uint8 = new_primitive_type(Ty::UINT8);
    let mut builder = ArrayBuilder::new(uint8);

    let s = builder.init(&mut pool, 32);
    assert!(s.is_ok());

    let values: Vec<u8> = (0..32).collect();

    let s = builder.append(&mut pool, &values, 32, None);
    assert!(s.is_ok());

    let arr = builder.finish(&mut pool).unwrap();

    let u8_ty = new_primitive_type(Ty::UINT8);
    assert!(u8_ty.equals(arr.arr_type()));

    assert_eq!(32, arr.len());

    for i in 0..32 {
        assert_eq!(i as u8, arr.value_byte(i));
    }

    arr.release(&mut pool);

    assert_eq!(mem_before, pool.bytes_allocated());
}

#[test]
fn test_column() {
    let mut pool = MemoryPool::new();
    let f32_ty = new_primitive_type(Ty::FLOAT);
    let f1 = new_field("f1", f32_ty.duplicate(), false);
    let values: Vec<f32> = (0..32).map(|i| i as f32).collect();

    let arr = float_array(&mut pool, &values);
    assert_eq!(32, arr.len());

    let col = Column::new(f1, arr);
    assert_eq!(32, col.len());
    assert_eq!(0, col.null_count());
    assert!(f32_ty.equals(col.column_type()));
    assert!(col.validate_column_data().is_ok());

    col.release(&mut pool);
    assert_eq!(0, pool.bytes_allocated());
}

#[test]
fn test_row_batch() {
    let mut pool = MemoryPool::new();
    let values: Vec<f32> = (0..32).map(|i| i as f32).collect();

    let schema = new_schema(vec![new_field("f1", new_primitive_type(Ty::FLOAT), false)]);
    let schema_again = new_schema(vec![new_field("f1", new_primitive_type(Ty::FLOAT), false)]);

    let arr = float_array(&mut pool, &values);
    let arr_again = float_array(&mut pool, &values);

    let row_batch = RowBatch::new(schema, 32, vec![arr]);

    assert!(schema_again.equals(row_batch.schema()));
    assert!(arr_again.equals(row_batch.column(0)));
    assert_eq!(32, row_batch.num_rows());
    assert_eq!(1, row_batch.num_cols());
    assert!(row_batch.validate().is_ok());
}

#[test]
fn test_table() {
    let mut pool = MemoryPool::new();
    let values: Vec<f32> = (0..32).map(|i| i as f32).collect();

    let schema = new_schema(vec![new_field("f1", new_primitive_type(Ty::FLOAT), false)]);
    let schema_again = new_schema(vec![new_field("f1", new_primitive_type(Ty::FLOAT), false)]);

    let arr = float_array(&mut pool, &values);
    let col = Column::new(new_field("f1", new_primitive_type(Ty::FLOAT), false), arr);

    let table = Table::new("t1", schema, vec![col]);
    assert!(schema_again.equals(table.schema()));
    assert_eq!(1, table.num_cols());
    assert_eq!(32, table.num_rows());
    assert!(table.validate_table_cols().is_ok());
}

#[test]
fn test_mem_src() {
    let mut src = MemorySource::create(32, AccessMode::READ_WRITE).unwrap();
    let values: Vec<u8> = (0..32).collect();
    let origin = values.clone();

    assert!(src.write(0, &values).is_ok());
    assert!(src.close().is_ok());

    let src = MemorySource::from_bytes(src.into_bytes(), AccessMode::READ_ONLY).unwrap();
    let buf = src.read_at(0, 32).unwrap();
    assert_eq!(origin, buf.to_vec());

    let mut src = src;
    assert!(src.close().is_ok());
}

#[test]
fn test_adapter() {
    let mut pool = MemoryPool::new();
    let values: Vec<f32> = (0..32).map(|i| i as f32).collect();

    let schema = new_schema(vec![new_field("f1", new_primitive_type(Ty::FLOAT), false)]);
    let schema_again = new_schema(vec![new_field("f1", new_primitive_type(Ty::FLOAT), false)]);

    let arr = float_array(&mut pool, &values);
    let arr_again = float_array(&mut pool, &values);

    let row_batch = RowBatch::new(schema, 32, vec![arr]);
    let batch_size = row_batch_size(&row_batch).unwrap();

    let mut src = MemorySource::create(batch_size as usize, AccessMode::READ_WRITE).unwrap();
    let header_pos = write_row_batch(&mut src, &row_batch, 0, 64).unwrap();

    assert!(src.close().is_ok());

    let src = MemorySource::from_bytes(src.into_bytes(), AccessMode::READ_ONLY).unwrap();
    let reader = RowBatchReader::open(src, header_pos);
    let read_batch = reader.read(&schema_again).unwrap();

    assert!(arr_again.equals(read_batch.column(0)));
    assert_eq!(32, read_batch.num_rows());
    assert_eq!(1, read_batch.num_cols());
}

#[test]
fn test_buffer_growth_minimum() {
    let mut pool = MemoryPool::new();
    let mut builder = BufferBuilder::new();
    assert_eq!(0, builder.capacity());
    assert!(builder.append(&mut pool, &[1u8]).is_ok());
    assert_eq!(64, builder.capacity());
    assert_eq!(64, pool.bytes_allocated());
    let buf = builder.finish();
    assert_eq!(1, buf.size());
    buf.release(&mut pool);
    assert_eq!(0, pool.bytes_allocated());
}

#[test]
fn test_array_with_validity() {
    let mut pool = MemoryPool::new();
    let baseline = pool.bytes_allocated();
    let mut builder = ArrayBuilder::new(new_primitive_type(Ty::UINT8));
    let values: Vec<u8> = vec![1, 2, 3, 4];
    let bits = vec![true, false, true, false];
    assert!(builder.append(&mut pool, &values, 4, Some(&bits)).is_ok());
    let arr = builder.finish(&mut pool).unwrap();
    assert_eq!(4, arr.len());
    assert_eq!(2, arr.null_count());
    assert!(arr.is_valid(0));
    assert!(!arr.is_valid(1));
    assert!(arr.is_valid(2));
    assert!(!arr.is_valid(3));
    arr.release(&mut pool);
    assert_eq!(baseline, pool.bytes_allocated());
}

#[test]
fn test_validity_follows_earlier_appends() {
    let mut pool = MemoryPool::new();
    let mut builder = ArrayBuilder::new(new_primitive_type(Ty::UINT8));
    assert!(builder.append(&mut pool, &[7u8, 8u8], 2, None).is_ok());
    let bits = vec![false, true];
    assert!(builder.append(&mut pool, &[9u8, 10u8], 2, Some(&bits)).is_ok());
    let arr = builder.finish(&mut pool).unwrap();
    assert_eq!(4, arr.len());
    assert_eq!(1, arr.null_count());
    assert!(arr.is_valid(0));
    assert!(arr.is_valid(1));
    assert!(!arr.is_valid(2));
    assert!(arr.is_valid(3));
}

#[test]
fn test_column_type_mismatch() {
    let mut pool = MemoryPool::new();
    let arr = float_array(&mut pool, &[1.0, 2.0]);
    let col = Column::new(new_field("f1", new_primitive_type(Ty::INT32), false), arr);
    let r = col.validate_column_data();
    assert!(r.is_err());
    assert_eq!(ErrorKind::TypeMismatch, r.unwrap_err().kind());
}

#[test]
fn test_row_batch_validation_failures() {
    let mut pool = MemoryPool::new();
    let values: Vec<f32> = (0..32).map(|i| i as f32).collect();

    // One array per field is required.
    let schema = new_schema(vec![new_field("f1", new_primitive_type(Ty::FLOAT), false)]);
    let batch = RowBatch::new(schema, 32, vec![]);
    let r = batch.validate();
    assert!(r.is_err());
    assert_eq!(ErrorKind::Validation, r.unwrap_err().kind());

    // A mismatched field type always fails validation.
    let schema = new_schema(vec![new_field("f1", new_primitive_type(Ty::INT32), false)]);
    let arr = float_array(&mut pool, &values);
    let batch = RowBatch::new(schema, 32, vec![arr]);
    let r = batch.validate();
    assert!(r.is_err());
    assert_eq!(ErrorKind::TypeMismatch, r.unwrap_err().kind());

    // A mismatched row count always fails validation.
    let schema = new_schema(vec![new_field("f1", new_primitive_type(Ty::FLOAT), false)]);
    let arr = float_array(&mut pool, &values);
    let batch = RowBatch::new(schema, 16, vec![arr]);
    let r = batch.validate();
    assert!(r.is_err());
    assert_eq!(ErrorKind::Validation, r.unwrap_err().kind());
}

#[test]
fn test_mem_src_errors() {
    let mut src = MemorySource::create(8, AccessMode::READ_ONLY).unwrap();
    let r = src.write(0, &[1u8]);
    assert!(r.is_err());
    assert_eq!(ErrorKind::Io, r.unwrap_err().kind());

    let mut src = MemorySource::create(8, AccessMode::READ_WRITE).unwrap();
    let r = src.write(5, &[1u8, 2, 3, 4]);
    assert!(r.is_err());
    assert_eq!(ErrorKind::Io, r.unwrap_err().kind());

    assert!(src.close().is_ok());
    let r = src.read_at(0, 4);
    assert!(r.is_err());
    assert_eq!(ErrorKind::Io, r.unwrap_err().kind());
    let r = src.close();
    assert!(r.is_err());
    assert_eq!(ErrorKind::Io, r.unwrap_err().kind());
}

#[test]
fn test_pool_accounting() {
    let mut pool = MemoryPool::new();
    let region = pool.allocate(100).unwrap();
    assert_eq!(100, pool.bytes_allocated());
    assert_eq!(100, region.len());
    assert!(region.iter().all(|b| *b == 0));

    let mut region = region;
    assert!(pool.reallocate(&mut region, 250).is_ok());
    assert_eq!(250, pool.bytes_allocated());
    assert_eq!(250, region.len());

    pool.free(region);
    assert_eq!(0, pool.bytes_allocated());
}

#[test]
fn test_recursion_limit() {
    let inner = new_struct_type(vec![new_field("g", new_primitive_type(Ty::INT32), true)]);
    let outer = new_struct_type(vec![new_field("f", inner, true)]);
    let schema = new_schema(vec![new_field("s", outer.duplicate(), true)]);

    // A struct array carries no fixed-width values of its own here.
    let empty = arrow::buffer::Buffer::from_bytes(vec![]);
    let arr = Array::from_parts(outer, 0, empty, None).unwrap();
    let batch = RowBatch::new(schema, 0, vec![arr]);

    let size = row_batch_size(&batch).unwrap();
    let mut src = MemorySource::create(size as usize, AccessMode::READ_WRITE).unwrap();

    let r = write_row_batch(&mut src, &batch, 0, 2);
    assert!(r.is_err());
    assert_eq!(ErrorKind::RecursionLimit, r.unwrap_err().kind());

    let r = write_row_batch(&mut src, &batch, 0, 64);
    assert!(r.is_ok());
}

#[test]
fn test_write_out_of_range() {
    let mut pool = MemoryPool::new();
    let arr = float_array(&mut pool, &[1.0, 2.0]);
    let schema = new_schema(vec![new_field("f1", new_primitive_type(Ty::FLOAT), false)]);
    let batch = RowBatch::new(schema, 2, vec![arr]);

    let size = row_batch_size(&batch).unwrap();
    let mut src = MemorySource::create((size - 1) as usize, AccessMode::READ_WRITE).unwrap();
    let r = write_row_batch(&mut src, &batch, 0, 64);
    assert!(r.is_err());
    assert_eq!(ErrorKind::Io, r.unwrap_err().kind());
}

#[test]
fn test_reader_schema_mismatch() {
    let mut pool = MemoryPool::new();
    let values: Vec<f32> = (0..8).map(|i| i as f32).collect();
    let schema = new_schema(vec![new_field("f1", new_primitive_type(Ty::FLOAT), false)]);
    let arr = float_array(&mut pool, &values);
    let batch = RowBatch::new(schema, 8, vec![arr]);

    let size = row_batch_size(&batch).unwrap();
    let mut src = MemorySource::create(size as usize, AccessMode::READ_WRITE).unwrap();
    let header_pos = write_row_batch(&mut src, &batch, 0, 64).unwrap();
    assert!(src.close().is_ok());

    let src = MemorySource::from_bytes(src.into_bytes(), AccessMode::READ_ONLY).unwrap();
    let reader = RowBatchReader::open(src, header_pos);

    // Two fields where one was written: the stored column count differs.
    let wrong = new_schema(vec![
        new_field("f1", new_primitive_type(Ty::FLOAT), false),
        new_field("f2", new_primitive_type(Ty::FLOAT), false),
    ]);
    let r = reader.read(&wrong);
    assert!(r.is_err());
    assert_eq!(ErrorKind::TypeMismatch, r.unwrap_err().kind());

    // A wider type where a narrower one was written: buffer sizes differ.
    let wrong = new_schema(vec![new_field("f1", new_primitive_type(Ty::DOUBLE), false)]);
    let r = reader.read(&wrong);
    assert!(r.is_err());
    assert_eq!(ErrorKind::Validation, r.unwrap_err().kind());
}

#[test]
fn test_adapter_roundtrip_with_validity() {
    let mut pool = MemoryPool::new();
    let mut builder = ArrayBuilder::new(new_primitive_type(Ty::UINT8));
    let values: Vec<u8> = (0..16).collect();
    let bits: Vec<bool> = (0..16).map(|i| i % 3 != 0).collect();
    assert!(builder.append(&mut pool, &values, 16, Some(&bits)).is_ok());
    let arr = builder.finish(&mut pool).unwrap();
    let null_count = arr.null_count();

    let schema = new_schema(vec![new_field("u", new_primitive_type(Ty::UINT8), true)]);
    let schema_again = new_schema(vec![new_field("u", new_primitive_type(Ty::UINT8), true)]);
    let batch = RowBatch::new(schema, 16, vec![arr]);

    let size = row_batch_size(&batch).unwrap();
    let mut src = MemorySource::create((size + 5) as usize, AccessMode::READ_WRITE).unwrap();
    let header_pos = write_row_batch(&mut src, &batch, 5, 64).unwrap();
    assert!(src.close().is_ok());

    let src = MemorySource::from_bytes(src.into_bytes(), AccessMode::READ_ONLY).unwrap();
    let reader = RowBatchReader::open(src, header_pos);
    let read_batch = reader.read(&schema_again).unwrap();

    let col = read_batch.column(0);
    assert_eq!(16, col.len());
    assert_eq!(null_count, col.null_count());
    for i in 0..16 {
        assert_eq!(bits[i], col.is_valid(i));
        assert_eq!(values[i], col.value_byte(i));
    }
    assert!(batch.column(0).equals(col));
}
