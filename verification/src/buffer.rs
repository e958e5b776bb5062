//! Element, dimension and buffer descriptors.
//!
//! A `Buffer` describes an N-dimensional strided array over pixel storage the
//! caller owns.  The descriptor owns only its per-axis metadata (the `dim`
//! vector); the pixel storage itself is referred to by an opaque address and is
//! never touched, freed or interpreted here.

use vstd::prelude::*;

verus! {

/// The scalar kind of one buffer element: signed integer, unsigned integer, or
/// floating point.
#[derive(Clone, Copy, PartialEq, Eq, Structural, Debug)]
pub enum Kind {
    Int,
    UInt,
    Float,
}

impl Kind {
    /// The numeric code the foreign ABI fixes for this kind:
    /// 0 = signed int, 1 = unsigned int, 2 = float.
    pub open spec fn spec_code(self) -> u8 {
        match self {
            Kind::Int => 0,
            Kind::UInt => 1,
            Kind::Float => 2,
        }
    }

    /// Numeric ABI code of this kind.
    pub fn code(self) -> (r: u8)
        ensures
            r == self.spec_code(),
    {
        match self {
            Kind::Int => 0,
            Kind::UInt => 1,
            Kind::Float => 2,
        }
    }
}

/// Type describes the type of one pixel element in terms of kind, bit width
/// and vector lane count.  For example, `Type::new(Kind::UInt, 8)` is one
/// 8-bit unsigned integer per channel and `Type::new(Kind::Float, 32)` one
/// 32-bit float per channel.
#[derive(Clone, Copy, PartialEq, Eq, Structural, Debug)]
pub struct Type(pub Kind, pub u8, pub u16);

impl Type {
    /// A scalar element type: `lanes` is 1.
    pub fn new(kind: Kind, bits: u8) -> (r: Type)
        ensures
            r.0 == kind,
            r.1 == bits,
            r.2 == 1,
    {
        Type(kind, bits, 1)
    }

    /// An element type with an explicit vector lane count.
    pub fn new_with_lanes(kind: Kind, bits: u8, lanes: u16) -> (r: Type)
        ensures
            r.0 == kind,
            r.1 == bits,
            r.2 == lanes,
    {
        Type(kind, bits, lanes)
    }

    pub fn bits(&self) -> (r: u8)
        ensures
            r == self.1,
    {
        self.1
    }

    pub fn kind(&self) -> (r: Kind)
        ensures
            r == self.0,
    {
        self.0
    }

    /// Size of one element in bytes; the caller guarantees `bits % 8 == 0`.
    pub fn size(&self) -> (r: usize)
        ensures
            r == self.1 as usize / 8,
    {
        self.bits() as usize / 8
    }
}

/// One record per axis: flag bits, minimum index, extent, and stride counted
/// in elements (not bytes) between consecutive indices along the axis.
#[derive(Clone, Copy, PartialEq, Eq, Structural, Debug)]
pub struct Dimension {
    pub flags: u32,
    pub min: i32,
    pub extent: i32,
    pub stride: i32,
}

/// The channel count that strides are computed from: single-channel and
/// degenerate data (`channels < 2`) steps by one element.
pub open spec fn eff_channels(channels: i32) -> int {
    if channels < 2 {
        1
    } else {
        channels as int
    }
}

/// The rank of a descriptor over `channels` channels: planar or grayscale data
/// has two axes, data with a channel axis has three.
pub open spec fn spec_rank(channels: i32) -> int {
    if channels < 2 {
        2
    } else {
        3
    }
}

/// A descriptor of an N-dimensional strided array, passed by address across
/// the foreign-function boundary.
///
/// `host` is the opaque address of caller-owned pixel storage; it is never
/// owned, freed or dereferenced by the descriptor.  `device` and
/// `device_interface` are opaque accelerator tags (0 meaning none), stored and
/// handed back but never interpreted.  `dim` holds exactly `dimensions`
/// per-axis records and is the only resource the descriptor owns.
pub struct Buffer {
    pub device: u64,
    pub device_interface: u64,
    pub dimensions: u8,
    pub host: u64,
    pub flags: u32,
    pub type_: Type,
    pub dim: Vec<Dimension>,
}

/// An opaque accelerator backend tag.  The value is a process-wide backend
/// descriptor handle supplied by the accelerator runtime; this crate stores it
/// and hands it back, never interprets or releases it.
#[derive(Clone, Copy, PartialEq, Eq, Structural, Debug)]
pub struct Device(pub u64);

impl Buffer {
    /// The dimension array is sized exactly to the recorded rank, and the rank
    /// is 2 or 3.
    pub open spec fn wf(self) -> bool {
        &&& self.dim@.len() == self.dimensions as int
        &&& (self.dimensions == 2 || self.dimensions == 3)
    }

    /// Axis 0 (width) steps by the channel count, axis 1 (height) by channel
    /// count times width, and a channel axis, present exactly when
    /// `channels >= 2`, steps by one element over `channels` entries.
    pub open spec fn describes(self, width: i32, height: i32, channels: i32) -> bool {
        &&& self.dimensions as int == spec_rank(channels)
        &&& self.dim@.len() == spec_rank(channels)
        &&& self.dim@[0].flags == 0
        &&& self.dim@[0].min == 0
        &&& self.dim@[0].extent == width
        &&& self.dim@[0].stride as int == eff_channels(channels)
        &&& self.dim@[1].flags == 0
        &&& self.dim@[1].min == 0
        &&& self.dim@[1].extent == height
        &&& self.dim@[1].stride as int == eff_channels(channels) * width
        &&& channels >= 2 ==> {
            &&& self.dim@[2].flags == 0
            &&& self.dim@[2].min == 0
            &&& self.dim@[2].extent == channels
            &&& self.dim@[2].stride == 1
        }
    }
}

/// Builds the descriptor record for a `width` by `height` image with
/// `channels` interleaved channels over the storage at `host`.
fn halide_buffer(width: i32, height: i32, channels: i32, t: Type, host: u64) -> (r: Buffer)
    requires
        0 <= width,
        0 <= height,
        0 <= channels,
        eff_channels(channels) * width <= i32::MAX,
        host != 0,
    ensures
        r.wf(),
        r.describes(width, height, channels),
        r.device == 0,
        r.device_interface == 0,
        r.host == host,
        r.flags == 0,
        r.type_ == t,
{
    let eff: i32 = if channels < 2 {
        1
    } else {
        channels
    };
    proof {
        assert(eff as int * width as int == eff_channels(channels) * width);
        assert(eff_channels(channels) * width >= 0) by (nonlinear_arith)
            requires
                eff_channels(channels) >= 0,
                width >= 0,
        ;
    }
    let mut dim: Vec<Dimension> = Vec::new();
    dim.push(Dimension { flags: 0, min: 0, extent: width, stride: eff });
    dim.push(Dimension { flags: 0, min: 0, extent: height, stride: eff * width });
    if channels > 1 {
        dim.push(Dimension { flags: 0, min: 0, extent: channels, stride: 1 });
    }
    let dimensions: u8 = if channels < 2 {
        2
    } else {
        3
    };
    Buffer {
        device: 0,
        device_interface: 0,
        dimensions,
        host,
        flags: 0,
        type_: t,
        dim,
    }
}

impl Buffer {
    /// A descriptor over mutable caller-owned storage at address `host`.
    ///
    /// The caller guarantees that `host` is non-null, references at least
    /// `width * height * max(channels, 1) * t.size()` bytes, and outlives
    /// every use of the descriptor; the descriptor never frees it.
    pub fn new(width: i32, height: i32, channels: i32, t: Type, host: u64) -> (r: Buffer)
        requires
            0 <= width,
            0 <= height,
            0 <= channels,
            eff_channels(channels) * width <= i32::MAX,
            host != 0,
        ensures
            r.wf(),
            r.describes(width, height, channels),
            r.device == 0,
            r.device_interface == 0,
            r.host == host,
            r.flags == 0,
            r.type_ == t,
    {
        halide_buffer(width, height, channels, t, host)
    }

    /// A descriptor over read-only caller-owned storage.  The stored address
    /// is the same kind of opaque alias as in `new`; read-only-ness is
    /// advisory, since the foreign callee decides whether it writes through
    /// the address.
    pub fn new_const(width: i32, height: i32, channels: i32, t: Type, host: u64) -> (r: Buffer)
        requires
            0 <= width,
            0 <= height,
            0 <= channels,
            eff_channels(channels) * width <= i32::MAX,
            host != 0,
        ensures
            r.wf(),
            r.describes(width, height, channels),
            r.device == 0,
            r.device_interface == 0,
            r.host == host,
            r.flags == 0,
            r.type_ == t,
    {
        halide_buffer(width, height, channels, t, host)
    }

    /// The least number of bytes of caller-owned storage a descriptor over a
    /// `width` by `height` image with `channels` interleaved channels of
    /// element type `t` refers to:
    /// `width * height * max(channels, 1) * t.size()`.
    /// None when that product does not fit a `usize`.
    pub fn required_bytes(width: i32, height: i32, channels: i32, t: Type) -> (r: Option<usize>)
        requires
            0 <= width,
            0 <= height,
            0 <= channels,
            8 <= t.1,
        ensures
            match r {
                Some(n) => n == width * height * eff_channels(channels) * (t.1 as int / 8),
                None => width * height * eff_channels(channels) * (t.1 as int / 8) > usize::MAX,
            },
    {
        let eff: usize = if channels < 2 {
            1
        } else {
            channels as usize
        };
        let ghost w = width as int;
        let ghost h = height as int;
        let ghost e = eff_channels(channels);
        let ghost s = t.1 as int / 8;
        let size = t.size();
        match (width as usize).checked_mul(height as usize) {
            Some(a) => {
                match a.checked_mul(eff) {
                    Some(b) => {
                        let r = b.checked_mul(size);
                        proof {
                            assert(b == (w * h) * e);
                            assert(w * h * e * s == ((w * h) * e) * s) by (nonlinear_arith);
                        }
                        r
                    },
                    None => {
                        proof {
                            assert(a == w * h);
                            assert((w * h) * e > usize::MAX);
                            assert(w * h * e * s >= (w * h) * e) by (nonlinear_arith)
                                requires
                                    (w * h) * e >= 0,
                                    s >= 1,
                            ;
                        }
                        None
                    },
                }
            },
            None => {
                proof {
                    assert(w * h > usize::MAX);
                    assert(w * h * e * s >= w * h) by (nonlinear_arith)
                        requires
                            w * h >= 0,
                            e >= 1,
                            s >= 1,
                    ;
                }
                None
            },
        }
    }

    /// Overwrites the two opaque accelerator fields; nothing else changes and
    /// nothing is validated or released.
    pub fn set_device(&mut self, device: u64, handle: Device)
        ensures
            final(self).device == device,
            final(self).device_interface == handle.0,
            final(self).dimensions == old(self).dimensions,
            final(self).host == old(self).host,
            final(self).flags == old(self).flags,
            final(self).type_ == old(self).type_,
            final(self).dim@ == old(self).dim@,
    {
        self.device = device;
        self.device_interface = handle.0;
    }
}

impl Clone for Buffer {
    /// Deep-copies the dimension array into a fresh allocation of the same
    /// length; every scalar field, the host alias and the device tags carry
    /// over unchanged.  The clone and the original own their dimension arrays
    /// independently.
    fn clone(&self) -> (r: Self)
        ensures
            r.device == self.device,
            r.device_interface == self.device_interface,
            r.dimensions == self.dimensions,
            r.host == self.host,
            r.flags == self.flags,
            r.type_ == self.type_,
            r.dim@ == self.dim@,
    {
        let mut dim: Vec<Dimension> = Vec::new();
        let mut i: usize = 0;
        while i < self.dim.len()
            invariant
                i <= self.dim@.len(),
                dim@ == self.dim@.take(i as int),
            decreases self.dim@.len() - i,
        {
            dim.push(self.dim[i]);
            proof {
                assert(dim@ =~= self.dim@.take(i + 1));
            }
            i = i + 1;
        }
        proof {
            assert(dim@ =~= self.dim@);
        }
        Buffer {
            device: self.device,
            device_interface: self.device_interface,
            dimensions: self.dimensions,
            host: self.host,
            flags: self.flags,
            type_: self.type_,
            dim,
        }
    }
}

} // verus!
