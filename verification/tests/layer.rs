use conv2d::layer::Conv2D;
use conv2d::shape::ConvShape;
use conv2d::unfold::im2col;

fn filters(out_channels: usize, in_channels: usize, kernel_size: usize) -> Vec<Vec<Vec<Vec<f32>>>> {
    vec![vec![vec![vec![0.5; kernel_size]; kernel_size]; in_channels]; out_channels]
}

#[test]
fn layer_keeps_its_parameters() {
    let layer = Conv2D::new(3, 4, 2, 1, 0, filters(4, 3, 2), vec![0.0; 4]).unwrap();
    assert_eq!(layer.in_channels, 3);
    assert_eq!(layer.out_channels, 4);
    assert_eq!(layer.kernel_size, 2);
    assert_eq!(layer.stride, 1);
    assert_eq!(layer.padding, 0);
    assert_eq!(layer.weight, filters(4, 3, 2));
    assert_eq!(layer.bias, vec![0.0; 4]);
}

#[test]
fn layer_defaults_to_unit_stride_without_padding() {
    let layer = Conv2D::with_defaults(1, 2, 3, filters(2, 1, 3), vec![1.0, 2.0]).unwrap();
    assert_eq!(layer.stride, 1);
    assert_eq!(layer.padding, 0);
    assert_eq!(layer.bias, vec![1.0, 2.0]);
    assert!(Conv2D::with_defaults(1, 2, 3, filters(2, 1, 2), vec![1.0, 2.0]).is_none());
}

#[test]
fn layer_refuses_zero_kernel_or_stride() {
    assert!(Conv2D::new(1, 1, 0, 1, 0, filters(1, 1, 0), vec![0.0]).is_none());
    assert!(Conv2D::new(1, 1, 2, 0, 0, filters(1, 1, 2), vec![0.0]).is_none());
}

#[test]
fn layer_refuses_parameters_of_other_extents() {
    assert!(Conv2D::new(3, 4, 2, 1, 0, filters(4, 3, 2), vec![0.0; 3]).is_none());
    assert!(Conv2D::new(3, 4, 2, 1, 0, filters(5, 3, 2), vec![0.0; 4]).is_none());
    assert!(Conv2D::new(3, 4, 2, 1, 0, filters(4, 2, 2), vec![0.0; 4]).is_none());
    assert!(Conv2D::new(3, 4, 2, 1, 0, filters(4, 3, 3), vec![0.0; 4]).is_none());
    let mut ragged = filters(4, 3, 2);
    ragged[3][2][1].push(0.5);
    assert!(Conv2D::new(3, 4, 2, 1, 0, ragged, vec![0.0; 4]).is_none());
}

#[test]
fn layer_without_filters() {
    let layer = Conv2D::new(3, 0, 2, 1, 0, filters(0, 3, 2), Vec::new()).unwrap();
    assert_eq!(layer.output_shape(2, 4), Some((0, 1, 3)));
}

#[test]
fn layer_output_shape() {
    let layer = Conv2D::new(3, 4, 2, 1, 0, filters(4, 3, 2), vec![0.0; 4]).unwrap();
    assert_eq!(layer.output_shape(2, 4), Some((4, 1, 3)));
    assert_eq!(layer.output_shape(28, 28), Some((4, 27, 27)));
    assert_eq!(layer.output_shape(1, 4), None);
    assert_eq!(layer.output_shape(4, 1), None);
    let strided = Conv2D::new(2, 5, 3, 2, 1, filters(5, 2, 3), vec![0.0; 5]).unwrap();
    assert_eq!(strided.output_shape(7, 9), Some((5, 4, 5)));
}

#[test]
fn layer_shape_for_an_input() {
    let layer = Conv2D::new(2, 5, 3, 2, 1, filters(5, 2, 3), vec![0.0; 5]).unwrap();
    assert_eq!(layer.shape_for(7, 9), ConvShape::new(2, 7, 9, 3, 2, 1));
    assert_eq!(layer.shape_for(0, 9), None);
    assert_eq!(
        layer.shape_for(1, 1),
        Some(ConvShape { in_channels: 2, in_height: 1, in_width: 1, kernel_size: 3, stride: 2, padding: 1 })
    );
}

#[test]
fn layer_patches_are_the_patch_matrix_of_the_input() {
    let layer = Conv2D::new(3, 4, 2, 1, 0, filters(4, 3, 2), vec![0.0; 4]).unwrap();
    let image: Vec<Vec<Vec<f32>>> = vec![
        vec![vec![1.0, 2.0, 3.0, 4.0], vec![6.0, 7.0, 8.0, 9.0]],
        vec![vec![-1.0, -2.0, -3.0, -4.0], vec![-6.0, -7.0, -8.0, -9.0]],
        vec![vec![0.0, 0.1, 0.2, 0.3], vec![0.5, 0.6, 0.7, 0.8]],
    ];
    let patches = layer.patches(&image, 2, 4, 0.0).unwrap();
    assert_eq!(patches.len(), 12);
    assert_eq!(patches[0], vec![1.0, 2.0, 3.0]);
    assert_eq!(patches[7], vec![-7.0, -8.0, -9.0]);
    assert_eq!(patches[11], vec![0.6, 0.7, 0.8]);
    let shape = layer.shape_for(2, 4).unwrap();
    assert_eq!(patches, im2col(&image, &shape, 0.0));
}

#[test]
fn layer_refuses_an_input_of_other_extents() {
    let layer = Conv2D::new(2, 1, 2, 1, 0, filters(1, 2, 2), vec![0.0]).unwrap();
    let image: Vec<Vec<Vec<f32>>> = vec![vec![vec![1.0, 2.0], vec![3.0, 4.0]]; 2];
    assert!(layer.patches(&image, 2, 2, 0.0).is_some());
    assert_eq!(layer.patches(&image, 2, 3, 0.0), None);
    assert_eq!(layer.patches(&image, 3, 2, 0.0), None);
    let one_channel: Vec<Vec<Vec<f32>>> = vec![vec![vec![1.0, 2.0], vec![3.0, 4.0]]];
    assert_eq!(layer.patches(&one_channel, 2, 2, 0.0), None);
    let small: Vec<Vec<Vec<f32>>> = vec![vec![vec![1.0]]; 2];
    assert_eq!(layer.patches(&small, 1, 1, 0.0), None);
}

#[test]
fn layer_can_be_cloned() {
    let layer = Conv2D::new(1, 1, 1, 1, 0, vec![vec![vec![vec![2.5f32]]]], vec![1.5]).unwrap();
    let copy = layer.clone();
    assert_eq!(copy.weight, layer.weight);
    assert_eq!(copy.bias, layer.bias);
    assert_eq!(format!("{:?}", copy), format!("{:?}", layer));
}
