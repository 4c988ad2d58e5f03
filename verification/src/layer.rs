//! The convolution layer that the patch matrix serves.

use crate::shape::{ConvShape, Geometry};
use crate::unfold::{checked_im2col, conforms, grid, has_dims, has_extents, patch_matrix, volume};
use vstd::prelude::*;

verus! {

/// A vector of filters as a sequence of images.
pub open spec fn filter_bank<T>(filters: Seq<Vec<Vec<Vec<T>>>>) -> Seq<Seq<Seq<Seq<T>>>> {
    Seq::new(filters.len(), |o: int| volume(filters[o]@))
}

/// A convolution layer as mathematics sees it.
pub struct LayerModel<T> {
    pub in_channels: nat,
    pub out_channels: nat,
    pub kernel_size: nat,
    pub stride: nat,
    pub padding: nat,
    pub weight: Seq<Seq<Seq<Seq<T>>>>,
    pub bias: Seq<T>,
}

impl<T> LayerModel<T> {
    /// Window and stride are positive, there is one filter and one bias per
    /// output channel, and every filter has `in_channels` planes of
    /// `kernel_size` by `kernel_size` cells.
    pub open spec fn valid(self) -> bool {
        &&& self.kernel_size >= 1
        &&& self.stride >= 1
        &&& self.bias.len() == self.out_channels
        &&& self.weight.len() == self.out_channels
        &&& forall|o: int|
            0 <= o < self.weight.len() ==> has_dims(
                #[trigger] self.weight[o],
                self.in_channels,
                self.kernel_size,
                self.kernel_size,
            )
    }

    /// The shape of the layer's convolution over an input of `in_height` by
    /// `in_width` cells per channel.
    pub open spec fn geometry(self, in_height: nat, in_width: nat) -> Geometry {
        Geometry {
            in_channels: self.in_channels,
            in_height,
            in_width,
            kernel_size: self.kernel_size,
            stride: self.stride,
            padding: self.padding,
        }
    }
}

/// A two-dimensional convolution layer: `out_channels` filters, each a window
/// of `kernel_size` by `kernel_size` cells over `in_channels` channels, and
/// one bias per filter.
///
/// The layer owns its parameters and knows the shape of its patch matrix for
/// any input; the product of the filters with that matrix is the caller's.
#[derive(Clone, Debug)]
pub struct Conv2D<T> {
    pub in_channels: usize,
    pub out_channels: usize,
    pub kernel_size: usize,
    pub stride: usize,
    pub padding: usize,
    /// Indexed by filter, channel, row and column of the window.
    pub weight: Vec<Vec<Vec<Vec<T>>>>,
    /// Indexed by filter.
    pub bias: Vec<T>,
}

impl<T> View for Conv2D<T> {
    type V = LayerModel<T>;

    open spec fn view(&self) -> LayerModel<T> {
        LayerModel {
            in_channels: self.in_channels as nat,
            out_channels: self.out_channels as nat,
            kernel_size: self.kernel_size as nat,
            stride: self.stride as nat,
            padding: self.padding as nat,
            weight: filter_bank(self.weight@),
            bias: self.bias@,
        }
    }
}

impl<T> Conv2D<T> {
    /// The layer's parameters have the extents that the layer names.
    pub open spec fn wf(&self) -> bool {
        self@.valid()
    }

    /// The shape of the layer's convolution over an input of `in_height` by
    /// `in_width` cells per channel; its view is the layer's
    /// [`LayerModel::geometry`].
    pub open spec fn shape_of(&self, in_height: usize, in_width: usize) -> ConvShape {
        ConvShape {
            in_channels: self.in_channels,
            in_height,
            in_width,
            kernel_size: self.kernel_size,
            stride: self.stride,
            padding: self.padding,
        }
    }

    /// Builds a layer from its parameters, refusing those that are not well
    /// formed.
    pub fn new(
        in_channels: usize,
        out_channels: usize,
        kernel_size: usize,
        stride: usize,
        padding: usize,
        weight: Vec<Vec<Vec<Vec<T>>>>,
        bias: Vec<T>,
    ) -> (layer: Option<Conv2D<T>>)
        ensures
            layer is Some <==> (Conv2D {
                in_channels,
                out_channels,
                kernel_size,
                stride,
                padding,
                weight,
                bias,
            }).wf(),
            layer is Some ==> layer->0 == (Conv2D {
                in_channels,
                out_channels,
                kernel_size,
                stride,
                padding,
                weight,
                bias,
            }),
    {
        if kernel_size == 0 || stride == 0 || bias.len() != out_channels || weight.len()
            != out_channels {
            return None;
        }
        let ghost bank = filter_bank(weight@);
        let mut o: usize = 0;
        while o < weight.len()
            invariant
                bank == filter_bank(weight@),
                o <= weight.len(),
                forall|i: int|
                    0 <= i < o ==> has_dims(
                        #[trigger] bank[i],
                        in_channels as nat,
                        kernel_size as nat,
                        kernel_size as nat,
                    ),
            decreases weight.len() - o,
        {
            if !has_extents(&weight[o], in_channels, kernel_size, kernel_size) {
                assert(!has_dims(
                    bank[o as int],
                    in_channels as nat,
                    kernel_size as nat,
                    kernel_size as nat,
                ));
                return None;
            }
            o += 1;
        }
        Some(Conv2D { in_channels, out_channels, kernel_size, stride, padding, weight, bias })
    }

    /// Builds a layer whose window moves one cell at a time over an input
    /// without padding.
    pub fn with_defaults(
        in_channels: usize,
        out_channels: usize,
        kernel_size: usize,
        weight: Vec<Vec<Vec<Vec<T>>>>,
        bias: Vec<T>,
    ) -> (layer: Option<Conv2D<T>>)
        ensures
            layer is Some <==> (Conv2D {
                in_channels,
                out_channels,
                kernel_size,
                stride: 1,
                padding: 0,
                weight,
                bias,
            }).wf(),
            layer is Some ==> layer->0 == (Conv2D {
                in_channels,
                out_channels,
                kernel_size,
                stride: 1,
                padding: 0,
                weight,
                bias,
            }),
    {
        Conv2D::new(in_channels, out_channels, kernel_size, 1, 0, weight, bias)
    }

    /// The shape of the layer's convolution over an input of `in_height` by
    /// `in_width` cells per channel, where that shape is well formed.
    pub fn shape_for(&self, in_height: usize, in_width: usize) -> (shape: Option<ConvShape>)
        ensures
            shape is Some <==> self.shape_of(in_height, in_width).wf(),
            shape is Some ==> shape->0 == self.shape_of(in_height, in_width),
    {
        ConvShape::new(
            self.in_channels,
            in_height,
            in_width,
            self.kernel_size,
            self.stride,
            self.padding,
        )
    }

    /// Channels, height and width of what the layer makes of an input of
    /// `in_height` by `in_width` cells per channel.
    pub fn output_shape(&self, in_height: usize, in_width: usize) -> (extents: Option<
        (usize, usize, usize),
    >)
        ensures
            extents is Some <==> self.shape_of(in_height, in_width).wf(),
            match extents {
                Some((channels, height, width)) => {
                    &&& channels == self.out_channels
                    &&& height == self.shape_of(in_height, in_width)@.out_height()
                    &&& width == self.shape_of(in_height, in_width)@.out_width()
                },
                None => true,
            },
    {
        match self.shape_for(in_height, in_width) {
            Some(shape) => Some((self.out_channels, shape.out_height(), shape.out_width())),
            None => None,
        }
    }

    /// The patch matrix of `input`, which has `in_height` by `in_width` cells
    /// per channel: what the layer's filters are multiplied with. Gives `None`
    /// when the layer cannot take an input of these extents, or `input` has
    /// others.
    pub fn patches(&self, input: &Vec<Vec<Vec<T>>>, in_height: usize, in_width: usize, zero: T) -> (patches:
        Option<Vec<Vec<T>>>) where T: Copy
        ensures
            patches is Some <==> self.shape_of(in_height, in_width).wf() && conforms(
                volume(input@),
                self.shape_of(in_height, in_width)@,
            ),
            patches is Some ==> grid(patches->0@) == patch_matrix(
                volume(input@),
                self.shape_of(in_height, in_width)@,
                zero,
            ),
    {
        let shape = ConvShape {
            in_channels: self.in_channels,
            in_height,
            in_width,
            kernel_size: self.kernel_size,
            stride: self.stride,
            padding: self.padding,
        };
        checked_im2col(input, &shape, zero)
    }
}

} // verus!
