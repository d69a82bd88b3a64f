//! Resource descriptions: the shape of an image or buffer independent of any
//! live allocation, and the physical-resource records the registry keeps.

use vstd::prelude::*;
use crate::access::AccessType;

verus! {

/// Texel format of an image. A closed set; the device boundary maps these
/// onto its own format enumeration.
#[derive(Clone, Copy, PartialEq, Eq, Structural, Debug)]
pub enum ImageFormat {
    R8Unorm,
    Rgba8Unorm,
    Rgba16Sfloat,
    R16Sfloat,
    R32Sfloat,
    D24UnormS8Uint,
    D32Sfloat,
}

/// Shape of an image: extent in texels plus format and usage flags.
/// `usage` is a device-defined bit set; the graph only compares it.
#[derive(Clone, Copy, PartialEq, Eq, Structural, Debug)]
pub struct ImageDesc {
    pub extent_x: u32,
    pub extent_y: u32,
    pub extent_z: u32,
    pub format: ImageFormat,
    pub usage: u32,
}

impl ImageDesc {
    /// A 2D image description with depth 1.
    pub fn new_2d(width: u32, height: u32, format: ImageFormat, usage: u32) -> (r: ImageDesc)
        ensures
            r == (ImageDesc {
                extent_x: width,
                extent_y: height,
                extent_z: 1u32,
                format,
                usage,
            }),
    {
        ImageDesc { extent_x: width, extent_y: height, extent_z: 1, format, usage }
    }

    /// The same image at half resolution in x and y, never below one texel.
    pub fn half_res(&self) -> (r: ImageDesc)
        ensures
            r == spec_half_res(*self),
    {
        let hx: u32 = if self.extent_x / 2 >= 1 { self.extent_x / 2 } else { 1 };
        let hy: u32 = if self.extent_y / 2 >= 1 { self.extent_y / 2 } else { 1 };
        ImageDesc { extent_x: hx, extent_y: hy, extent_z: self.extent_z, format: self.format, usage: self.usage }
    }

    /// The same image with a different format.
    pub fn with_format(&self, format: ImageFormat) -> (r: ImageDesc)
        ensures
            r == (ImageDesc { format, ..*self }),
    {
        ImageDesc { format, ..*self }
    }
}

/// Half resolution in x and y, never below one texel; depth, format and
/// usage unchanged.
pub open spec fn spec_half_res(d: ImageDesc) -> ImageDesc {
    ImageDesc {
        extent_x: if d.extent_x / 2 >= 1 { (d.extent_x / 2) as u32 } else { 1u32 },
        extent_y: if d.extent_y / 2 >= 1 { (d.extent_y / 2) as u32 } else { 1u32 },
        extent_z: d.extent_z,
        format: d.format,
        usage: d.usage,
    }
}

/// Shape of a buffer: byte size plus device-defined usage flag bits.
#[derive(Clone, Copy, PartialEq, Eq, Structural, Debug)]
pub struct BufferDesc {
    pub size: u64,
    pub usage: u32,
}

/// Description of either kind of resource.
#[derive(Clone, Copy, PartialEq, Eq, Structural, Debug)]
pub enum ResourceDesc {
    Image(ImageDesc),
    Buffer(BufferDesc),
}

/// The two kinds of resource a handle can refer to.
#[derive(Clone, Copy, PartialEq, Eq, Structural, Debug)]
pub enum ResourceKind {
    Image,
    Buffer,
}

pub open spec fn spec_kind_of(desc: &ResourceDesc) -> ResourceKind {
    match desc {
        ResourceDesc::Image(_) => ResourceKind::Image,
        ResourceDesc::Buffer(_) => ResourceKind::Buffer,
    }
}

#[verifier::when_used_as_spec(spec_kind_of)]
pub fn kind_of(desc: &ResourceDesc) -> (r: ResourceKind)
    ensures
        r == spec_kind_of(desc),
{
    match desc {
        ResourceDesc::Image(_) => ResourceKind::Image,
        ResourceDesc::Buffer(_) => ResourceKind::Buffer,
    }
}

/// A live image as the graph sees it: its shape plus the last access it was
/// left in. Long-lived images owned outside the graph carry this record so
/// the graph can compute a correct first transition when they are imported.
#[derive(Clone, Copy, PartialEq, Eq, Structural, Debug)]
pub struct Image {
    pub desc: ImageDesc,
    pub access: AccessType,
}

/// A live buffer as the graph sees it, analogous to [`Image`].
#[derive(Clone, Copy, PartialEq, Eq, Structural, Debug)]
pub struct Buffer {
    pub desc: BufferDesc,
    pub access: AccessType,
}

} // verus!
