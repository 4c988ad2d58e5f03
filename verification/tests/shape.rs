use conv2d::shape::{checked_out_size, out_size, ConvShape};

#[test]
fn out_size_follows_the_formula() {
    assert_eq!(out_size(2, 0, 2, 1), 1);
    assert_eq!(out_size(4, 0, 2, 1), 3);
    assert_eq!(out_size(4, 0, 2, 2), 2);
    assert_eq!(out_size(7, 1, 3, 2), 4);
    assert_eq!(out_size(1, 1, 3, 1), 1);
    assert_eq!(out_size(28, 2, 5, 1), 28);
}

#[test]
fn out_size_drops_incomplete_trailing_windows() {
    assert_eq!(out_size(5, 0, 2, 2), 2);
    assert_eq!(out_size(6, 0, 2, 2), 3);
    assert_eq!(out_size(7, 0, 3, 4), 2);
    assert_eq!(out_size(8, 0, 3, 4), 2);
    assert_eq!(out_size(10, 0, 3, 4), 2);
    assert_eq!(out_size(11, 0, 3, 4), 3);
}

#[test]
fn out_size_window_as_wide_as_the_padded_axis() {
    assert_eq!(out_size(3, 0, 3, 1), 1);
    assert_eq!(out_size(0, 1, 2, 1), 1);
    assert_eq!(out_size(3, 0, 3, 7), 1);
}

#[test]
fn out_size_padded_extent_beyond_the_machine_word() {
    assert_eq!(out_size(usize::MAX, 1, 3, usize::MAX), 1);
    assert_eq!(out_size(usize::MAX, 1, 3, 1), usize::MAX);
    assert_eq!(out_size(usize::MAX, usize::MAX, 1, 3), usize::MAX);
}

#[test]
fn checked_out_size_agrees_with_out_size() {
    assert_eq!(checked_out_size(4, 0, 2, 2), Some(2));
    assert_eq!(checked_out_size(7, 1, 3, 2), Some(4));
    assert_eq!(checked_out_size(usize::MAX, 1, 3, usize::MAX), Some(1));
    assert_eq!(checked_out_size(usize::MAX, usize::MAX, 1, 3), Some(usize::MAX));
}

#[test]
fn checked_out_size_refuses_zero_stride() {
    assert_eq!(checked_out_size(4, 0, 2, 0), None);
}

#[test]
fn checked_out_size_refuses_window_wider_than_padded_axis() {
    assert_eq!(checked_out_size(1, 0, 3, 1), None);
    assert_eq!(checked_out_size(2, 1, 5, 1), None);
    assert_eq!(checked_out_size(0, 0, 1, 1), None);
}

#[test]
fn checked_out_size_refuses_count_beyond_the_machine_word() {
    assert_eq!(checked_out_size(usize::MAX, 1, 1, 1), None);
    assert_eq!(checked_out_size(usize::MAX, 0, 0, 1), None);
    assert_eq!(checked_out_size(usize::MAX, usize::MAX, 1, 2), None);
}

#[test]
fn shape_extents() {
    let shape = ConvShape::new(3, 2, 4, 2, 1, 0).unwrap();
    assert_eq!(
        shape,
        ConvShape { in_channels: 3, in_height: 2, in_width: 4, kernel_size: 2, stride: 1, padding: 0 }
    );
    assert!(shape.is_wf());
    assert_eq!(shape.out_height(), 1);
    assert_eq!(shape.out_width(), 3);
    assert_eq!(shape.rows(), 12);
    assert_eq!(shape.cols(), 3);
}

#[test]
fn shape_extents_with_stride_and_padding() {
    let shape = ConvShape::new(2, 7, 9, 3, 2, 1).unwrap();
    assert_eq!(shape.out_height(), 4);
    assert_eq!(shape.out_width(), 5);
    assert_eq!(shape.rows(), 18);
    assert_eq!(shape.cols(), 20);
}

#[test]
fn shape_without_channels() {
    let shape = ConvShape::new(0, 2, 2, 2, 1, 0).unwrap();
    assert_eq!(shape.rows(), 0);
    assert_eq!(shape.cols(), 1);
    let wide = ConvShape::new(0, usize::MAX, usize::MAX, usize::MAX, 1, 0).unwrap();
    assert_eq!(wide.rows(), 0);
    assert_eq!(wide.cols(), 1);
}

#[test]
fn shape_refuses_zero_kernel_or_stride() {
    assert_eq!(ConvShape::new(1, 4, 4, 0, 1, 0), None);
    assert_eq!(ConvShape::new(1, 4, 4, 2, 0, 0), None);
}

#[test]
fn shape_refuses_window_that_does_not_fit() {
    assert_eq!(ConvShape::new(1, 2, 4, 3, 1, 0), None);
    assert_eq!(ConvShape::new(1, 4, 2, 3, 1, 0), None);
    assert!(ConvShape::new(1, 2, 2, 3, 1, 1).is_some());
}

#[test]
fn shape_refuses_extents_beyond_the_machine_word() {
    assert_eq!(ConvShape::new(usize::MAX, 2, 2, 2, 1, 0), None);
    assert_eq!(ConvShape::new(1, 2, 2, usize::MAX, 1, usize::MAX), None);
    assert_eq!(ConvShape::new(1, usize::MAX, usize::MAX, 1, 1, 0), None);
    assert_eq!(ConvShape::new(1, usize::MAX, 1, 1, 1, 1), None);
    assert!(ConvShape::new(usize::MAX, 1, 1, 1, 1, 0).is_some());
}

#[test]
fn ill_formed_shape_is_told_apart() {
    let shape = ConvShape { in_channels: 1, in_height: 1, in_width: 1, kernel_size: 2, stride: 1, padding: 0 };
    assert!(!shape.is_wf());
    let shape = ConvShape { in_channels: 1, in_height: 1, in_width: 1, kernel_size: 1, stride: 1, padding: 0 };
    assert!(shape.is_wf());
}
