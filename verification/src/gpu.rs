//! Model of the device side of an acceleration-structure build: a context
//! that hands out handles for device objects and records, in order, every
//! operation the engine asks for. The renderer replays the recorded log
//! against the real device; the rest of the library is proved against the
//! log alone.

use vstd::prelude::*;

verus! {

/// One recorded device operation. Handles and buffer ids are the values
/// `GpuContext` handed out; the renderer maps them to real device objects.
#[derive(Clone, Copy, PartialEq, Eq, Debug)]
pub enum GpuOp {
    /// Allocate the device object for one bottom-level structure.
    CreateBottomLevel { handle: u64 },
    /// Upload a bottom-level structure's geometry description.
    UploadGeometry { handle: u64, word_count: usize },
    /// Allocate the device object for a top-level structure over
    /// `instance_count` instances.
    CreateTopLevel { handle: u64, instance_count: usize },
    /// Allocate a device buffer and fill it with the instance records.
    UploadInstances { buffer: u64, record_count: usize },
    /// Allocate the shared scratch buffer for the builds that follow.
    AllocateScratch { buffer: u64, size: u64 },
    /// Record the build of one bottom-level structure.
    BuildBottomLevel { handle: u64 },
    /// Global barrier between acceleration-structure build stages.
    MemoryBarrier,
    /// Record the build of a top-level structure from an instance buffer.
    BuildTopLevel { handle: u64, instance_buffer: u64 },
}

/// The shared scratch buffer a build step may use; `size` is its byte size.
#[derive(Clone, Copy, PartialEq, Eq, Debug)]
pub struct ScratchBuffer {
    pub id: u64,
    pub size: u64,
}

/// What a `GpuContext` holds, seen from a specification.
#[verifier::ext_equal]
pub ghost struct GpuView {
    /// Every operation recorded so far, oldest first.
    pub ops: Seq<GpuOp>,
    /// The next handle or buffer id to hand out.
    pub next_handle: u64,
}

/// The handle counter after one more handle was handed out.
pub open spec fn advanced(h: u64) -> u64 {
    if h < u64::MAX {
        (h + 1) as u64
    } else {
        h
    }
}

/// Command-recording context: hands out handles and keeps the ordered log of
/// device operations for one or more frames.
pub struct GpuContext {
    ops: Vec<GpuOp>,
    next_handle: u64,
}

impl View for GpuContext {
    type V = GpuView;

    closed spec fn view(&self) -> GpuView {
        GpuView { ops: self.ops@, next_handle: self.next_handle }
    }
}

impl GpuContext {
    /// An empty log; handles start at 1 so that 0 can stand for "none".
    pub fn new() -> (g: GpuContext)
        ensures
            g@.ops =~= Seq::<GpuOp>::empty(),
            g@.next_handle == 1,
    {
        GpuContext { ops: Vec::new(), next_handle: 1 }
    }

    /// The recorded operations, oldest first.
    pub fn ops(&self) -> (r: &Vec<GpuOp>)
        ensures
            r@ == self@.ops,
    {
        &self.ops
    }

    /// How many operations were recorded so far.
    pub fn op_count(&self) -> (r: usize)
        ensures
            r == self@.ops.len(),
    {
        self.ops.len()
    }

    fn fresh_handle(&mut self) -> (h: u64)
        ensures
            h == old(self)@.next_handle,
            final(self)@.next_handle == advanced(old(self)@.next_handle),
            final(self)@.ops == old(self)@.ops,
    {
        let h = self.next_handle;
        if self.next_handle < u64::MAX {
            self.next_handle = self.next_handle + 1;
        }
        h
    }

    pub(crate) fn create_bottom_level(&mut self) -> (h: u64)
        ensures
            h == old(self)@.next_handle,
            final(self)@.next_handle == advanced(old(self)@.next_handle),
            final(self)@.ops == old(self)@.ops.push(GpuOp::CreateBottomLevel { handle: h }),
    {
        let h = self.fresh_handle();
        self.ops.push(GpuOp::CreateBottomLevel { handle: h });
        h
    }

    pub(crate) fn upload_geometry(&mut self, handle: u64, word_count: usize)
        ensures
            final(self)@.next_handle == old(self)@.next_handle,
            final(self)@.ops == old(self)@.ops.push(GpuOp::UploadGeometry { handle, word_count }),
    {
        self.ops.push(GpuOp::UploadGeometry { handle, word_count });
    }

    pub(crate) fn create_top_level(&mut self, instance_count: usize) -> (h: u64)
        ensures
            h == old(self)@.next_handle,
            final(self)@.next_handle == advanced(old(self)@.next_handle),
            final(self)@.ops == old(self)@.ops.push(
                GpuOp::CreateTopLevel { handle: h, instance_count },
            ),
    {
        let h = self.fresh_handle();
        self.ops.push(GpuOp::CreateTopLevel { handle: h, instance_count });
        h
    }

    pub(crate) fn upload_instances(&mut self, record_count: usize) -> (b: u64)
        ensures
            b == old(self)@.next_handle,
            final(self)@.next_handle == advanced(old(self)@.next_handle),
            final(self)@.ops == old(self)@.ops.push(
                GpuOp::UploadInstances { buffer: b, record_count },
            ),
    {
        let b = self.fresh_handle();
        self.ops.push(GpuOp::UploadInstances { buffer: b, record_count });
        b
    }

    pub(crate) fn allocate_scratch(&mut self, size: u64) -> (s: ScratchBuffer)
        ensures
            s.id == old(self)@.next_handle,
            s.size == size,
            final(self)@.next_handle == advanced(old(self)@.next_handle),
            final(self)@.ops == old(self)@.ops.push(
                GpuOp::AllocateScratch { buffer: s.id, size },
            ),
    {
        let b = self.fresh_handle();
        self.ops.push(GpuOp::AllocateScratch { buffer: b, size });
        ScratchBuffer { id: b, size }
    }

    pub(crate) fn build_bottom_level(&mut self, handle: u64)
        ensures
            final(self)@.next_handle == old(self)@.next_handle,
            final(self)@.ops == old(self)@.ops.push(GpuOp::BuildBottomLevel { handle }),
    {
        self.ops.push(GpuOp::BuildBottomLevel { handle });
    }

    pub(crate) fn memory_barrier(&mut self)
        ensures
            final(self)@.next_handle == old(self)@.next_handle,
            final(self)@.ops == old(self)@.ops.push(GpuOp::MemoryBarrier),
    {
        self.ops.push(GpuOp::MemoryBarrier);
    }

    pub(crate) fn build_top_level(&mut self, handle: u64, instance_buffer: u64)
        ensures
            final(self)@.next_handle == old(self)@.next_handle,
            final(self)@.ops == old(self)@.ops.push(
                GpuOp::BuildTopLevel { handle, instance_buffer },
            ),
    {
        self.ops.push(GpuOp::BuildTopLevel { handle, instance_buffer });
    }
}

} // verus!
