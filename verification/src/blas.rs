//! One bottom-level acceleration structure: its geometry description, its
//! world-space instance record, the scratch requirement the driver reported
//! for its build, and a dirty flag. The unit records its own build commands
//! lazily, only while it is dirty.

use vstd::prelude::*;

use crate::gpu::{advanced, GpuContext, GpuOp, ScratchBuffer};

verus! {

/// One slot of the top-level instance buffer: the world transform (raw bit
/// patterns of a row-major 3x4 matrix) and the bottom-level structure the
/// instance points at.
#[derive(Clone, Copy, PartialEq, Eq, Debug)]
pub struct InstanceData {
    pub transform: [u32; 12],
    pub blas_handle: u64,
}

/// What a `BlasVariable` holds, seen from a specification.
#[verifier::ext_equal]
pub ghost struct UnitView {
    /// The opaque geometry words the renderer uploads for this unit.
    pub geometry: Seq<u32>,
    /// Raw bits of the unit's world transform.
    pub transform: [u32; 12],
    /// Scratch bytes the driver reported for building this unit.
    pub requirement: u64,
    /// Device handle of the unit's structure object.
    pub handle: u64,
    /// A build must be recorded before the structure may next be read.
    pub dirty: bool,
    /// At least one build was recorded: the handle may be read.
    pub built: bool,
}

/// The instance record a unit with model `u` contributes.
pub open spec fn record_of(u: UnitView) -> InstanceData {
    InstanceData { transform: u.transform, blas_handle: u.handle }
}

/// A unit's model after its build was attempted: a dirty unit comes out
/// clean and built, a clean one is untouched.
pub open spec fn built_unit(u: UnitView) -> UnitView {
    if u.dirty {
        UnitView { dirty: false, built: true, ..u }
    } else {
        u
    }
}

/// One registered object's bottom-level structure.
pub struct BlasVariable {
    geometry: Vec<u32>,
    transform: [u32; 12],
    requirement: u64,
    handle: u64,
    dirty: bool,
    built: bool,
}

impl View for BlasVariable {
    type V = UnitView;

    closed spec fn view(&self) -> UnitView {
        UnitView {
            geometry: self.geometry@,
            transform: self.transform,
            requirement: self.requirement,
            handle: self.handle,
            dirty: self.dirty,
            built: self.built,
        }
    }
}

impl BlasVariable {
    /// Allocates the unit's device object and uploads its geometry;
    /// `requirement` is the scratch size the driver reports for building this
    /// geometry. The unit starts dirty and unbuilt: its structure contents
    /// exist only after the first recorded build.
    pub fn new(
        gpu: &mut GpuContext,
        geometry: Vec<u32>,
        transform: [u32; 12],
        requirement: u64,
    ) -> (unit: BlasVariable)
        ensures
            unit@ == (UnitView {
                geometry: geometry@,
                transform,
                requirement,
                handle: old(gpu)@.next_handle,
                dirty: true,
                built: false,
            }),
            final(gpu)@.next_handle == advanced(old(gpu)@.next_handle),
            final(gpu)@.ops == old(gpu)@.ops
                .push(GpuOp::CreateBottomLevel { handle: old(gpu)@.next_handle })
                .push(GpuOp::UploadGeometry {
                    handle: old(gpu)@.next_handle,
                    word_count: geometry@.len() as usize,
                }),
    {
        let handle = gpu.create_bottom_level();
        gpu.upload_geometry(handle, geometry.len());
        BlasVariable { geometry, transform, requirement, handle, dirty: true, built: false }
    }

    /// Replaces the geometry description wholesale and uploads it;
    /// `requirement` is the driver's scratch requirement for the new
    /// geometry. Never records a build itself: it only marks the unit dirty.
    pub fn set_geometry(&mut self, gpu: &mut GpuContext, geometry: Vec<u32>, requirement: u64)
        ensures
            final(self)@ == (UnitView {
                geometry: geometry@,
                requirement,
                dirty: true,
                ..old(self)@
            }),
            final(gpu)@.next_handle == old(gpu)@.next_handle,
            final(gpu)@.ops == old(gpu)@.ops.push(GpuOp::UploadGeometry {
                handle: old(self)@.handle,
                word_count: geometry@.len() as usize,
            }),
    {
        gpu.upload_geometry(self.handle, geometry.len());
        self.geometry = geometry;
        self.requirement = requirement;
        self.dirty = true;
    }

    /// Replaces the world transform; the structure itself needs no rebuild,
    /// so the unit is not marked dirty (the caller re-collects instances).
    pub fn set_transform(&mut self, transform: [u32; 12])
        ensures
            final(self)@ == (UnitView { transform, ..old(self)@ }),
    {
        self.transform = transform;
    }

    /// Scratch bytes this unit's build needs, as the driver reported them;
    /// a static query, never a build.
    pub fn memory_requirement(&self) -> (r: u64)
        ensures
            r == self@.requirement,
    {
        self.requirement
    }

    /// The unit's current instance record. Available from creation on, but
    /// points at real structure contents only once the unit is built.
    pub fn instance_data(&self) -> (r: InstanceData)
        ensures
            r == record_of(self@),
    {
        InstanceData { transform: self.transform, blas_handle: self.handle }
    }

    /// Whether a build must be recorded before the structure is next read.
    pub fn is_dirty(&self) -> (r: bool)
        ensures
            r == self@.dirty,
    {
        self.dirty
    }

    /// Whether at least one build of this unit was recorded.
    pub fn is_built(&self) -> (r: bool)
        ensures
            r == self@.built,
    {
        self.built
    }

    /// Records this unit's build commands if and only if the unit is dirty,
    /// and says whether it did. The shared scratch buffer must be at least as
    /// large as this unit's reported requirement. On recording, the dirty
    /// flag clears and the handle becomes valid to read.
    pub fn build(&mut self, gpu: &mut GpuContext, scratch: &ScratchBuffer) -> (r: bool)
        requires
            scratch.size >= old(self)@.requirement,
        ensures
            r == old(self)@.dirty,
            final(self)@ == built_unit(old(self)@),
            final(gpu)@.next_handle == old(gpu)@.next_handle,
            final(gpu)@.ops == if old(self)@.dirty {
                old(gpu)@.ops.push(GpuOp::BuildBottomLevel { handle: old(self)@.handle })
            } else {
                old(gpu)@.ops
            },
    {
        if !self.dirty {
            return false;
        }
        gpu.build_bottom_level(self.handle);
        self.dirty = false;
        self.built = true;
        true
    }
}

} // verus!
