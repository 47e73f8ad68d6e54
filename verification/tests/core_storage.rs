use numeric_core::{Buffer, DType, Layout, Order, Shape};

#[test]
fn zeros_has_correct_length() {
    let layout = Layout::contiguous(Shape::matrix(2, 3), Order::ColumnMajor);
    let buf: Buffer<f64> = Buffer::zeros(layout);
    assert_eq!(buf.as_slice().len(), 6);
}

#[test]
fn from_vec_rejects_wrong_length() {
    let layout = Layout::contiguous(Shape::matrix(2, 3), Order::ColumnMajor);
    let result = Buffer::from_vec(vec![0.0; 5], layout);
    assert!(result.is_err());
}

#[test]
fn get_set_roundtrip() {
    let layout = Layout::contiguous(Shape::matrix(2, 2), Order::ColumnMajor);
    let mut buf: Buffer<f64> = Buffer::zeros(layout);
    *buf.get_mut(&[1, 0]) = 42.0;
    assert_eq!(*buf.get(&[1, 0]), 42.0);
}

#[test]
fn column_major_matrix_offsets() {
    // 3x2 column-major: column 0 = [0,1,2], column 1 = [3,4,5]
    let layout = Layout::contiguous(Shape::matrix(3, 2), Order::ColumnMajor);
    assert_eq!(layout.offset(&[0, 0]), 0);
    assert_eq!(layout.offset(&[1, 0]), 1);
    assert_eq!(layout.offset(&[0, 1]), 3);
}

#[test]
fn row_major_matrix_offsets() {
    // 3x2 row-major: row 0 = [0,1], row 1 = [2,3], row 2 = [4,5]
    let layout = Layout::contiguous(Shape::matrix(3, 2), Order::RowMajor);
    assert_eq!(layout.offset(&[0, 0]), 0);
    assert_eq!(layout.offset(&[0, 1]), 1);
    assert_eq!(layout.offset(&[1, 0]), 2);
}

#[test]
fn matrix_element_count() {
    assert_eq!(Shape::matrix(3, 4).element_count(), 12);
}

#[test]
fn vector_element_count() {
    assert_eq!(Shape::vector(5).element_count(), 5);
}

#[test]
fn scalar_shape_has_one_element_and_no_rows() {
    let s = Shape::scalar();
    assert_eq!(s.rank(), 0);
    assert_eq!(s.element_count(), 1);
    assert_eq!(s.rows(), None);
    assert_eq!(s.cols(), None);
}

#[test]
fn shape_accessors_report_dimensions() {
    let m = Shape::matrix(3, 4);
    assert_eq!(m.rank(), 2);
    assert_eq!(m.dims(), &[3, 4]);
    assert_eq!(m.rows(), Some(3));
    assert_eq!(m.cols(), Some(4));
    let v = Shape::vector(7);
    assert_eq!(v.rows(), Some(7));
    assert_eq!(v.cols(), None);
    let n = Shape::new(vec![2, 0, 5]);
    assert_eq!(n.dims(), &[2, 0, 5]);
    assert_eq!(n.element_count(), 0);
    let from_array = Shape::new([4usize, 5]);
    assert_eq!(from_array, Shape::matrix(4, 5));
}

#[test]
fn contiguous_strides_follow_the_order() {
    let dims = Shape::new(vec![2, 3, 4]);
    let col = Layout::contiguous(dims.clone(), Order::ColumnMajor);
    assert_eq!(col.strides(), &[1, 2, 6]);
    assert_eq!(col.order(), Order::ColumnMajor);
    assert_eq!(col.shape(), &dims);
    let row = Layout::contiguous(dims, Order::RowMajor);
    assert_eq!(row.strides(), &[12, 4, 1]);
    assert_eq!(row.order(), Order::RowMajor);
}

#[test]
fn every_in_bounds_index_has_its_own_offset_inside_the_buffer() {
    for order in [Order::ColumnMajor, Order::RowMajor] {
        let layout = Layout::contiguous(Shape::new(vec![2, 3, 4]), order);
        let mut seen = vec![false; 24];
        for i in 0..2 {
            for j in 0..3 {
                for k in 0..4 {
                    let off = layout.offset(&[i, j, k]);
                    assert!(off < 24);
                    assert!(!seen[off]);
                    seen[off] = true;
                }
            }
        }
        assert!(seen.iter().all(|&s| s));
    }
}

#[test]
fn write_then_read_leaves_other_elements_alone() {
    let layout = Layout::contiguous(Shape::matrix(2, 3), Order::RowMajor);
    let mut buf = Buffer::from_vec(vec![1, 2, 3, 4, 5, 6], layout).unwrap();
    *buf.get_mut(&[1, 2]) = 60;
    assert_eq!(*buf.get(&[1, 2]), 60);
    assert_eq!(*buf.get(&[0, 2]), 3);
    assert_eq!(buf.as_slice(), &[1, 2, 3, 4, 5, 60]);
    buf.as_mut_slice()[0] = 10;
    assert_eq!(*buf.get(&[0, 0]), 10);
    assert_eq!(buf.layout().strides(), &[3, 1]);
}

#[test]
fn from_vec_error_reports_the_shape_and_lengths() {
    let layout = Layout::contiguous(Shape::matrix(2, 3), Order::ColumnMajor);
    match Buffer::from_vec(vec![0u8; 5], layout) {
        Err(numeric_core::CoreError::BufferLengthMismatch { shape, expected, actual }) => {
            assert_eq!(shape, Shape::matrix(2, 3));
            assert_eq!(expected, 6);
            assert_eq!(actual, 5);
        }
        other => panic!("unexpected result {:?}", other),
    }
}

#[test]
fn zeros_fills_with_default_values() {
    let layout = Layout::contiguous(Shape::vector(3), Order::ColumnMajor);
    let buf: Buffer<i32> = Buffer::zeros(layout);
    assert_eq!(buf.as_slice(), &[0, 0, 0]);
}

#[test]
fn dtype_sizes() {
    assert_eq!(DType::Float32.size_in_bytes(), 4);
    assert_eq!(DType::Float64.size_in_bytes(), 8);
}

#[test]
fn clones_keep_layout_and_data() {
    let layout = Layout::contiguous(Shape::matrix(2, 3), Order::RowMajor);
    let copy = layout.clone();
    assert_eq!(copy, layout);
    let buf = Buffer::from_vec(vec![1, 2, 3, 4, 5, 6], layout).unwrap();
    let other = buf.clone();
    assert_eq!(other.as_slice(), buf.as_slice());
    assert_eq!(other.layout(), buf.layout());
}
