//! Image descriptor, blit option, and cache-handle primitives.
//!
//! These types describe decoded or embedded image pixel data without tying the
//! core to filesystem loading, eviction policy, or a concrete renderer.
use vstd::prelude::*;

use crate::asset::AssetHandle;
use crate::widget::{Color, Rect};

verus! {

/// Supported pixel storage formats.
#[derive(Debug, Clone, Copy, PartialEq, Eq, Structural, Hash)]
pub enum PixelFormat {
    /// 16-bit RGB565.
    Rgb565,
    /// 32-bit ARGB8888.
    Argb8888,
    /// 8-bit luminance.
    L8,
}

/// Bytes occupied by one pixel of `format`.
pub open spec fn bytes_per_pixel_spec(format: PixelFormat) -> u32 {
    match format {
        PixelFormat::Rgb565 => 2,
        PixelFormat::Argb8888 => 4,
        PixelFormat::L8 => 1,
    }
}

impl PixelFormat {
    /// Bytes occupied by one pixel of this format.
    pub fn bytes_per_pixel(self) -> (r: u32)
        ensures
            r == bytes_per_pixel_spec(self),
    {
        match self {
            PixelFormat::Rgb565 => 2,
            PixelFormat::Argb8888 => 4,
            PixelFormat::L8 => 1,
        }
    }
}

/// Pixel storage for an image descriptor.
#[derive(Debug, Clone, PartialEq, Eq)]
pub enum ImageData<'a> {
    /// Borrowed raw bytes.
    Borrowed(&'a [u8]),
    /// Borrowed colour pixels.
    BorrowedColors(&'a [Color]),
    /// Owned raw bytes.
    Owned(Vec<u8>),
    /// Source-backed asset whose pixels are not in memory yet.
    Asset(AssetHandle),
}

/// Number of bytes held in memory by `data`.
pub open spec fn image_byte_len(data: ImageData) -> int {
    match data {
        ImageData::Borrowed(b) => b@.len() as int,
        ImageData::BorrowedColors(c) => (c@.len() * 4) as int,
        ImageData::Owned(b) => b@.len() as int,
        ImageData::Asset(_) => 0,
    }
}

impl<'a> ImageData<'a> {
    /// Number of pixel bytes held in memory.
    ///
    /// Colour slices count four bytes per pixel; asset handles count zero.
    pub fn byte_len(&self) -> (r: usize)
        requires
            image_byte_len(*self) <= usize::MAX,
        ensures
            r == image_byte_len(*self),
    {
        match self {
            ImageData::Borrowed(bytes) => bytes.len(),
            ImageData::BorrowedColors(colors) => colors.len() * PixelFormat::Argb8888.bytes_per_pixel() as usize,
            ImageData::Owned(bytes) => bytes.len(),
            ImageData::Asset(_) => 0,
        }
    }

    /// Whether no pixel bytes are held in memory.
    pub fn is_empty(&self) -> (r: bool)
        ensures
            r == (image_byte_len(*self) == 0),
    {
        match self {
            ImageData::Borrowed(bytes) => bytes.len() == 0,
            ImageData::BorrowedColors(colors) => colors.len() == 0,
            ImageData::Owned(bytes) => bytes.len() == 0,
            ImageData::Asset(_) => true,
        }
    }

    /// Borrow the raw bytes when the data is byte-backed.
    pub fn as_bytes(&self) -> (r: Option<&[u8]>)
        ensures
            match *self {
                ImageData::Borrowed(b) => r == Some(b),
                ImageData::Owned(b) => r matches Some(s) && s@ == b@,
                _ => r is None,
            },
    {
        match self {
            ImageData::Borrowed(bytes) => Some(*bytes),
            ImageData::Owned(bytes) => Some(bytes.as_slice()),
            _ => None,
        }
    }

    /// Borrow the colour pixels when the data is colour-backed.
    pub fn as_color_slice(&self) -> (r: Option<&[Color]>)
        ensures
            match *self {
                ImageData::BorrowedColors(c) => r == Some(c),
                _ => r is None,
            },
    {
        match self {
            ImageData::BorrowedColors(colors) => Some(*colors),
            _ => None,
        }
    }
}

/// Decoded or embedded image description.
#[derive(Debug, Clone, PartialEq, Eq)]
pub struct ImageDescriptor<'a> {
    /// Pixel format.
    pub format: PixelFormat,
    /// Width in pixels.
    pub width: u16,
    /// Height in pixels.
    pub height: u16,
    /// Pixel storage.
    pub data: ImageData<'a>,
    /// Row stride in bytes, or `None` when tightly packed.
    pub stride: Option<u32>,
}

/// Row stride of a tightly packed image.
pub open spec fn packed_stride(width: u16, format: PixelFormat) -> u32 {
    (width as int * bytes_per_pixel_spec(format)) as u32
}

impl<'a> ImageDescriptor<'a> {
    /// Construct a descriptor from its parts.
    pub fn new(
        format: PixelFormat,
        width: u16,
        height: u16,
        data: ImageData<'a>,
        stride: Option<u32>,
    ) -> (r: Self)
        ensures
            r == (ImageDescriptor { format, width, height, data, stride }),
    {
        ImageDescriptor { format, width, height, data, stride }
    }

    /// Tightly packed descriptor over borrowed bytes.
    pub fn borrowed(format: PixelFormat, width: u16, height: u16, data: &'a [u8]) -> (r: Self)
        ensures
            r == (ImageDescriptor { format, width, height, data: ImageData::Borrowed(data), stride: None }),
    {
        Self::new(format, width, height, ImageData::Borrowed(data), None)
    }

    /// Tightly packed descriptor over owned bytes.
    pub fn owned(format: PixelFormat, width: u16, height: u16, data: Vec<u8>) -> (r: Self)
        ensures
            r.format == format && r.width == width && r.height == height && r.stride is None,
            r.data matches ImageData::Owned(b) && b@ == data@,
    {
        Self::new(format, width, height, ImageData::Owned(data), None)
    }

    /// ARGB8888 descriptor over borrowed colour pixels.
    pub fn from_color_slice(pixels: &'a [Color], width: u16, height: u16) -> (r: Self)
        ensures
            r == (ImageDescriptor {
                format: PixelFormat::Argb8888,
                width,
                height,
                data: ImageData::BorrowedColors(pixels),
                stride: None,
            }),
    {
        Self::new(PixelFormat::Argb8888, width, height, ImageData::BorrowedColors(pixels), None)
    }

    /// Width and height in pixels.
    pub fn dimensions(&self) -> (r: (u16, u16))
        ensures
            r == (self.width, self.height),
    {
        (self.width, self.height)
    }

    /// Stride of a tightly packed row of this image.
    pub fn tightly_packed_stride(&self) -> (r: u32)
        ensures
            r == packed_stride(self.width, self.format),
    {
        self.width as u32 * self.format.bytes_per_pixel()
    }

    /// Effective row stride in bytes.
    pub fn stride_bytes(&self) -> (r: u32)
        ensures
            r == match self.stride {
                Some(s) => s,
                None => packed_stride(self.width, self.format),
            },
    {
        match self.stride {
            Some(stride) => stride,
            None => self.tightly_packed_stride(),
        }
    }

    /// Whether rows carry no padding.
    pub fn is_tightly_packed(&self) -> (r: bool)
        ensures
            r == match self.stride {
                Some(s) => s == packed_stride(self.width, self.format),
                None => true,
            },
    {
        match self.stride {
            Some(stride) => stride == self.tightly_packed_stride(),
            None => true,
        }
    }
}

/// Per-blit transformation options.
#[derive(Debug, Clone, Copy, PartialEq, Eq)]
pub struct BlitOpts {
    /// Optional recolour tint.
    pub recolor: Option<Color>,
    /// Recolour blend strength.
    pub recolor_alpha: u8,
    /// Horizontal scale in 1/256 units.
    pub scale_x: u16,
    /// Vertical scale in 1/256 units.
    pub scale_y: u16,
    /// Rotation in degrees.
    pub rotation_deg: i16,
    /// Rotation pivot.
    pub pivot: (i16, i16),
    /// Optional clip rectangle.
    pub clip: Option<Rect>,
}

impl Default for BlitOpts {
    fn default() -> (r: Self)
        ensures
            r == (BlitOpts {
                recolor: None,
                recolor_alpha: 0,
                scale_x: 256,
                scale_y: 256,
                rotation_deg: 0,
                pivot: (0, 0),
                clip: None,
            }),
    {
        BlitOpts {
            recolor: None,
            recolor_alpha: 0,
            scale_x: 256,
            scale_y: 256,
            rotation_deg: 0,
            pivot: (0, 0),
            clip: None,
        }
    }
}

/// Cache key issued by an image cache.
#[derive(Debug, Clone, Copy, PartialEq, Eq, Structural, PartialOrd, Ord, Hash)]
pub struct CacheHandle(u32);

impl View for CacheHandle {
    type V = u32;

    closed spec fn view(&self) -> u32 {
        self.0
    }
}

impl CacheHandle {
    /// Construct a handle from its raw value.
    pub fn new(raw: u32) -> (r: Self)
        ensures
            r@ == raw,
    {
        CacheHandle(raw)
    }

    /// Return the raw `u32` value.
    pub fn as_u32(self) -> (r: u32)
        ensures
            r == self@,
    {
        self.0
    }
}

/// Storage for decoded images keyed by [`CacheHandle`].
pub trait ImageCache<'a> {
    /// Look up a cached descriptor.
    fn get(&self, handle: CacheHandle) -> Option<&ImageDescriptor<'a>>;

    /// Insert a descriptor and return its handle.
    fn put(&mut self, descriptor: ImageDescriptor<'a>) -> CacheHandle;
}

} // verus!
