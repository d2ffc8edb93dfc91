//! Argument records of indirect draw and dispatch calls, as GPU buffers
//! hold them.
use vstd::prelude::*;
use crate::misc::{le_u32, read_u32_le, Convert2Vec};

verus! {

/// The arguments of an indirect draw.
#[derive(Debug, Clone, Copy, PartialEq, Eq, Structural)]
pub struct DrawIndirect {
    /// The number of vertices to draw.
    pub vertex_count: u32,
    /// The number of instances to draw.
    pub instance_count: u32,
    /// The index of the first vertex to draw.
    pub base_vertex: u32,
    /// The instance id of the first instance to draw.
    pub base_instance: u32,
}

/// The workgroup counts of an indirect dispatch.
#[derive(Debug, Clone, Copy, PartialEq, Eq, Structural)]
pub struct DispatchIndirect {
    pub x: u32,
    pub y: u32,
    pub z: u32,
}

impl Convert2Vec for DrawIndirect {
    open spec fn byte_size() -> nat {
        16
    }

    open spec fn decode(bytes: Seq<u8>) -> DrawIndirect {
        DrawIndirect {
            vertex_count: le_u32(bytes, 0),
            instance_count: le_u32(bytes, 4),
            base_vertex: le_u32(bytes, 8),
            base_instance: le_u32(bytes, 12),
        }
    }

    fn convert(data: &[u8]) -> (r: Vec<DrawIndirect>) {
        let len = data.len();
        let n = len / 16;
        let mut result: Vec<DrawIndirect> = Vec::new();
        for i in 0..n
            invariant
                n == data@.len() / 16,
                len == data@.len(),
                result@.len() == i,
                forall|k: int|
                    0 <= k < i ==> #[trigger] result@[k] == DrawIndirect::decode(
                        data@.subrange(k * 16, (k + 1) * 16),
                    ),
        {
            assert(16 * i + 16 <= data@.len()) by (nonlinear_arith)
                requires i < n, n == data@.len() / 16;
            let at = 16 * i;
            let v = DrawIndirect {
                vertex_count: read_u32_le(data, at),
                instance_count: read_u32_le(data, at + 4),
                base_vertex: read_u32_le(data, at + 8),
                base_instance: read_u32_le(data, at + 12),
            };
            assert(v == DrawIndirect::decode(data@.subrange(i * 16, (i + 1) * 16)));
            result.push(v);
        }
        result
    }
}

impl Convert2Vec for DispatchIndirect {
    open spec fn byte_size() -> nat {
        12
    }

    open spec fn decode(bytes: Seq<u8>) -> DispatchIndirect {
        DispatchIndirect { x: le_u32(bytes, 0), y: le_u32(bytes, 4), z: le_u32(bytes, 8) }
    }

    fn convert(data: &[u8]) -> (r: Vec<DispatchIndirect>) {
        let len = data.len();
        let n = len / 12;
        let mut result: Vec<DispatchIndirect> = Vec::new();
        for i in 0..n
            invariant
                n == data@.len() / 12,
                len == data@.len(),
                result@.len() == i,
                forall|k: int|
                    0 <= k < i ==> #[trigger] result@[k] == DispatchIndirect::decode(
                        data@.subrange(k * 12, (k + 1) * 12),
                    ),
        {
            assert(12 * i + 12 <= data@.len()) by (nonlinear_arith)
                requires i < n, n == data@.len() / 12;
            let at = 12 * i;
            let v = DispatchIndirect {
                x: read_u32_le(data, at),
                y: read_u32_le(data, at + 4),
                z: read_u32_le(data, at + 8),
            };
            assert(v == DispatchIndirect::decode(data@.subrange(i * 12, (i + 1) * 12)));
            result.push(v);
        }
        result
    }
}

} // verus!
