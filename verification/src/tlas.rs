//! The top-level structure manager: a registry of named bottom-level units,
//! a dirty flag, and the once-per-frame `build` that re-sizes, re-collects
//! and re-records the whole two-level structure when anything changed.

use vstd::prelude::*;

use crate::blas::{built_unit, record_of, BlasVariable, InstanceData, UnitView};
use crate::gpu::{advanced, GpuContext, GpuOp};

verus! {

/// One registry slot, seen from a specification.
#[verifier::ext_equal]
pub ghost struct EntryView {
    pub name: Seq<char>,
    pub unit: UnitView,
}

/// The instance buffer of one generation, seen from a specification.
#[verifier::ext_equal]
pub ghost struct BufferView {
    pub id: u64,
    pub records: Seq<InstanceData>,
}

/// What a `TlasVariable` holds, seen from a specification.
#[verifier::ext_equal]
pub ghost struct TlasView {
    /// Something changed since the last build.
    pub modified: bool,
    /// The registered units, oldest first, names distinct.
    pub entries: Seq<EntryView>,
    /// The current generation's instance buffer, if any build ran.
    pub instance_buffer: Option<BufferView>,
    /// The current generation's top-level handle, if any build ran.
    pub top_handle: Option<u64>,
    /// The handle list the descriptor payload exposes.
    pub structures: Seq<u64>,
}

/// No two registry slots share a name.
pub open spec fn names_distinct(s: Seq<EntryView>) -> bool {
    forall|i: int, j: int| 0 <= i < j < s.len() ==> s[i].name != s[j].name
}

/// Index of the first slot named `n`, or -1 if no slot is.
pub open spec fn index_of_name(s: Seq<EntryView>, n: Seq<char>) -> int
    decreases s.len(),
{
    if s.len() == 0 {
        -1
    } else if s[0].name == n {
        0
    } else {
        let r = index_of_name(s.subrange(1, s.len() as int), n);
        if r < 0 {
            -1
        } else {
            r + 1
        }
    }
}

/// Whether some slot is named `n`.
pub open spec fn contains_name(s: Seq<EntryView>, n: Seq<char>) -> bool {
    index_of_name(s, n) >= 0
}

/// The registry after `register(n, u)`: the slot named `n` is replaced if
/// present (last write wins), else a new slot is appended.
pub open spec fn register_update(s: Seq<EntryView>, n: Seq<char>, u: UnitView) -> Seq<EntryView> {
    let e = EntryView { name: n, unit: u };
    if contains_name(s, n) {
        s.remove(index_of_name(s, n)).push(e)
    } else {
        s.push(e)
    }
}

/// The registry after `unregister(n)`: the slot named `n` is removed if
/// present, else nothing happens.
pub open spec fn unregister_update(s: Seq<EntryView>, n: Seq<char>) -> Seq<EntryView> {
    if contains_name(s, n) {
        s.remove(index_of_name(s, n))
    } else {
        s
    }
}

/// The instance records the registry contributes, in registry order.
pub open spec fn records_of(s: Seq<EntryView>) -> Seq<InstanceData> {
    Seq::new(s.len(), |i: int| record_of(s[i].unit))
}

/// The largest scratch requirement any registered unit reported; 0 with no
/// units.
pub open spec fn max_requirement(s: Seq<EntryView>) -> u64
    decreases s.len(),
{
    if s.len() == 0 {
        0u64
    } else {
        let rest = max_requirement(s.drop_last());
        if rest >= s.last().unit.requirement {
            rest
        } else {
            s.last().unit.requirement
        }
    }
}

/// The one shared scratch buffer's size: builds run strictly sequentially
/// within one submission and reuse the buffer, so the single largest step
/// governs, not the sum. `top_req` is the driver's requirement for the
/// top-level build itself.
pub open spec fn scratch_size_for(s: Seq<EntryView>, top_req: u64) -> u64 {
    if max_requirement(s) >= top_req {
        max_requirement(s)
    } else {
        top_req
    }
}

/// Whether any registered unit still needs its own build.
pub open spec fn any_dirty(s: Seq<EntryView>) -> bool {
    exists|i: int| 0 <= i < s.len() && s[i].unit.dirty
}

/// The registry after every unit's build was attempted.
pub open spec fn built_entries(s: Seq<EntryView>) -> Seq<EntryView> {
    Seq::new(s.len(), |i: int| EntryView { name: s[i].name, unit: built_unit(s[i].unit) })
}

/// The bottom-level build commands one pass over the registry records:
/// one per dirty unit, in registry order.
pub open spec fn blas_build_ops(s: Seq<EntryView>) -> Seq<GpuOp>
    decreases s.len(),
{
    if s.len() == 0 {
        Seq::<GpuOp>::empty()
    } else {
        blas_build_ops(s.drop_last()) + if s.last().unit.dirty {
            seq![GpuOp::BuildBottomLevel { handle: s.last().unit.handle }]
        } else {
            Seq::<GpuOp>::empty()
        }
    }
}

/// Everything one rebuild records, in order: the fresh top-level object and
/// instance buffer, the shared scratch buffer, every dirty unit's build, one
/// barrier if and only if some unit built, the top-level build, and the
/// closing barrier. `h0` is the handle counter when the rebuild starts.
pub open spec fn tlas_build_ops(s: Seq<EntryView>, top_req: u64, h0: u64) -> Seq<GpuOp> {
    seq![
        GpuOp::CreateTopLevel { handle: h0, instance_count: s.len() as usize },
        GpuOp::UploadInstances { buffer: advanced(h0), record_count: s.len() as usize },
        GpuOp::AllocateScratch {
            buffer: advanced(advanced(h0)),
            size: scratch_size_for(s, top_req),
        },
    ] + blas_build_ops(s) + (if any_dirty(s) {
        seq![GpuOp::MemoryBarrier]
    } else {
        Seq::<GpuOp>::empty()
    }) + seq![
        GpuOp::BuildTopLevel { handle: h0, instance_buffer: advanced(h0) },
        GpuOp::MemoryBarrier,
    ]
}

/// The manager after a rebuild that started with handle counter `h0`: clean,
/// every unit built, and a fresh generation of top-level handle and instance
/// buffer, consistent with each other.
pub open spec fn manager_after_build(m: TlasView, h0: u64) -> TlasView {
    TlasView {
        modified: false,
        entries: built_entries(m.entries),
        instance_buffer: Some(BufferView { id: advanced(h0), records: records_of(m.entries) }),
        top_handle: Some(h0),
        structures: seq![h0],
    }
}

/// The recording context after a rebuild of registry `s`: the build
/// operations are appended and three handles were handed out.
pub open spec fn gpu_after_build(g: crate::gpu::GpuView, s: Seq<EntryView>, top_req: u64)
    -> crate::gpu::GpuView {
    crate::gpu::GpuView {
        ops: g.ops + tlas_build_ops(s, top_req, g.next_handle),
        next_handle: advanced(advanced(advanced(g.next_handle))),
    }
}

/// One registry slot: a stable name and the unit it owns.
pub struct TlasEntry {
    pub name: String,
    pub unit: BlasVariable,
}

impl View for TlasEntry {
    type V = EntryView;

    closed spec fn view(&self) -> EntryView {
        EntryView { name: self.name@, unit: self.unit@ }
    }
}

/// The views of a sequence of registry slots.
pub open spec fn entry_views(s: Seq<TlasEntry>) -> Seq<EntryView> {
    Seq::new(s.len(), |i: int| s[i]@)
}

/// The device buffer of instance records one build uploaded.
pub struct InstanceBuffer {
    pub id: u64,
    pub records: Vec<InstanceData>,
}

impl View for InstanceBuffer {
    type V = BufferView;

    closed spec fn view(&self) -> BufferView {
        BufferView { id: self.id, records: self.records@ }
    }
}

/// The descriptor payload handed to the shading stage: the handle list of
/// the current generation's structures.
pub struct DescriptorPayload {
    pub structures: Vec<u64>,
}

/// The registry of bottom-level units and the top-level structure built
/// over them.
pub struct TlasVariable {
    modified: bool,
    entries: Vec<TlasEntry>,
    instance_buffer: Option<InstanceBuffer>,
    acceleration_structure: Option<u64>,
    structures: Vec<u64>,
}

impl View for TlasVariable {
    type V = TlasView;

    closed spec fn view(&self) -> TlasView {
        TlasView {
            modified: self.modified,
            entries: entry_views(self.entries@),
            instance_buffer: match self.instance_buffer {
                Some(b) => Some(b@),
                None => None,
            },
            top_handle: self.acceleration_structure,
            structures: self.structures@,
        }
    }
}

impl TlasVariable {
    /// Registered names are distinct: one slot per name.
    pub open spec fn wf(&self) -> bool {
        names_distinct(self@.entries)
    }

    /// An empty manager. It starts dirty, so that the first build call
    /// produces a (possibly empty) structure.
    pub fn new() -> (t: TlasVariable)
        ensures
            t@ =~= (TlasView {
                modified: true,
                entries: Seq::<EntryView>::empty(),
                instance_buffer: None,
                top_handle: None,
                structures: Seq::<u64>::empty(),
            }),
            t.wf(),
    {
        TlasVariable {
            modified: true,
            entries: Vec::new(),
            instance_buffer: None,
            acceleration_structure: None,
            structures: Vec::new(),
        }
    }

    fn find_index(&self, name: &String) -> (r: Option<usize>)
        ensures
            match r {
                Some(i) => i == index_of_name(self@.entries, name@),
                None => index_of_name(self@.entries, name@) == -1,
            },
    {
        let ghost s = self@.entries;
        let mut i: usize = 0;
        while i < self.entries.len()
            invariant
                i <= self.entries@.len(),
                s == entry_views(self.entries@),
                forall|j: int| 0 <= j < i ==> s[j].name != name@,
            decreases self.entries@.len() - i,
        {
            if self.entries[i].name == *name {
                proof {
                    lemma_index_of_name_found(s, name@, i as int);
                }
                return Some(i);
            }
            i = i + 1;
        }
        proof {
            lemma_index_of_name_absent(s, name@);
        }
        None
    }

    /// Inserts the unit under `name`, or replaces the unit already there
    /// (last write wins), and marks the manager dirty.
    pub fn register(&mut self, name: String, blas: BlasVariable)
        requires
            old(self).wf(),
        ensures
            final(self).wf(),
            final(self)@ =~= (TlasView {
                modified: true,
                entries: register_update(old(self)@.entries, name@, blas@),
                ..old(self)@
            }),
    {
        let ghost s = self@.entries;
        let ghost e = EntryView { name: name@, unit: blas@ };
        proof {
            lemma_index_of_name_props(s, name@);
        }
        match self.find_index(&name) {
            Some(i) => {
                self.entries.remove(i);
                proof {
                    lemma_entry_views_remove(old(self).entries@, i as int);
                    lemma_names_distinct_remove(s, i as int);
                    lemma_names_distinct_push(s.remove(i as int), e);
                }
            },
            None => {
                proof {
                    lemma_names_distinct_push(s, e);
                }
            },
        }
        let ghost mid = self.entries@;
        self.entries.push(TlasEntry { name, unit: blas });
        self.modified = true;
        proof {
            let pushed = self.entries@.last();
            lemma_entry_views_push(mid, pushed);
            assert(pushed@ == e);
            assert(self@.entries =~= register_update(s, e.name, e.unit));
        }
    }

    /// Removes the slot named `name` if present, marking the manager dirty;
    /// an idempotent no-op otherwise.
    pub fn unregister(&mut self, name: String)
        requires
            old(self).wf(),
        ensures
            final(self).wf(),
            final(self)@ =~= (TlasView {
                modified: old(self)@.modified || contains_name(old(self)@.entries, name@),
                entries: unregister_update(old(self)@.entries, name@),
                ..old(self)@
            }),
    {
        let ghost s = self@.entries;
        match self.find_index(&name) {
            Some(i) => {
                proof {
                    lemma_index_of_name_props(s, name@);
                }
                self.entries.remove(i);
                self.modified = true;
                proof {
                    lemma_entry_views_remove(old(self).entries@, i as int);
                    lemma_names_distinct_remove(s, i as int);
                }
            },
            None => {},
        }
    }

    /// Something changed since the last build.
    pub fn is_dirty(&self) -> (r: bool)
        ensures
            r == self@.modified,
    {
        self.modified
    }

    /// How many units are registered.
    pub fn unit_count(&self) -> (r: usize)
        ensures
            r == self@.entries.len(),
    {
        self.entries.len()
    }

    /// Whether a unit is registered under `name`.
    pub fn contains(&self, name: &String) -> (r: bool)
        ensures
            r == contains_name(self@.entries, name@),
    {
        match self.find_index(name) {
            Some(_) => true,
            None => false,
        }
    }

    /// Whether at least one build completed, i.e. a current generation
    /// exists and the descriptor payload may be requested.
    pub fn has_built(&self) -> (r: bool)
        ensures
            r == (self@.top_handle is Some),
    {
        match self.acceleration_structure {
            Some(_) => true,
            None => false,
        }
    }

    /// The current generation's top-level handle, if any build completed.
    pub fn top_level_handle(&self) -> (r: Option<u64>)
        ensures
            r == self@.top_handle,
    {
        self.acceleration_structure
    }

    /// The current generation's instance buffer, if any build completed.
    pub fn instance_buffer(&self) -> (r: &Option<InstanceBuffer>)
        ensures
            r is Some <==> self@.instance_buffer is Some,
            r matches Some(b) ==> self@.instance_buffer == Some(b@),
    {
        &self.instance_buffer
    }

    /// Rebuilds the whole two-level structure if, and only if, something
    /// changed, and says whether it did. On the fast path (nothing changed)
    /// neither the manager nor the recording context is touched.
    ///
    /// `top_level_requirement` is the driver's scratch requirement for a
    /// top-level build over the current membership. The dirty flag clears
    /// before any work, so a failing replay cannot wedge the manager in a
    /// retry loop on the same state. One rebuild records: a fresh top-level
    /// object sized for the membership, the instance upload, one shared
    /// scratch buffer sized for the largest single build step, every dirty
    /// unit's build, a single barrier if and only if some unit built, the
    /// top-level build, and the closing barrier.
    pub fn build(&mut self, gpu: &mut GpuContext, top_level_requirement: u64) -> (r: bool)
        requires
            old(self).wf(),
        ensures
            final(self).wf(),
            r == old(self)@.modified,
            !old(self)@.modified ==> *final(self) == *old(self) && *final(gpu) == *old(gpu),
            old(self)@.modified ==> final(self)@ =~= manager_after_build(
                old(self)@,
                old(gpu)@.next_handle,
            ),
            old(self)@.modified ==> final(gpu)@ =~= gpu_after_build(
                old(gpu)@,
                old(self)@.entries,
                top_level_requirement,
            ),
    {
        if !self.modified {
            return false;
        }
        self.modified = false;

        let ghost s0 = old(self)@.entries;
        let ghost h0 = old(gpu)@.next_handle;
        let ghost ops0 = old(gpu)@.ops;

        // collect every unit's instance record, in registry order
        let mut records: Vec<InstanceData> = Vec::new();
        let mut i: usize = 0;
        while i < self.entries.len()
            invariant
                i <= self.entries@.len(),
                records@ =~= records_of(entry_views(self.entries@)).take(i as int),
            decreases self.entries@.len() - i,
        {
            let rec = self.entries[i].unit.instance_data();
            records.push(rec);
            proof {
                assert(records@ =~= records_of(entry_views(self.entries@)).take(i + 1 as int));
            }
            i = i + 1;
        }
        proof {
            assert(records@ =~= records_of(s0));
        }

        // a fresh top-level object for this generation
        let count = records.len();
        let tlas_handle = gpu.create_top_level(count);
        self.acceleration_structure = Some(tlas_handle);
        let mut structures: Vec<u64> = Vec::new();
        structures.push(tlas_handle);
        self.structures = structures;

        // upload the collected records into a fresh device buffer
        let instance_buffer_id = gpu.upload_instances(count);

        // one shared scratch buffer, sized for the largest single build step
        let mut scratch_size = top_level_requirement;
        let mut k: usize = 0;
        while k < self.entries.len()
            invariant
                k <= self.entries@.len(),
                scratch_size == scratch_size_for(
                    entry_views(self.entries@).take(k as int),
                    top_level_requirement,
                ),
            decreases self.entries@.len() - k,
        {
            let req = self.entries[k].unit.memory_requirement();
            proof {
                lemma_max_requirement_step(entry_views(self.entries@), k as int);
            }
            if req > scratch_size {
                scratch_size = req;
            }
            k = k + 1;
        }
        proof {
            assert(s0.take(s0.len() as int) =~= s0);
        }
        let scratch = gpu.allocate_scratch(scratch_size);
        proof {
            lemma_scratch_size_dominates(s0, top_level_requirement);
        }
        let ghost base_ops = gpu@.ops;
        let ghost hn = gpu@.next_handle;

        // phase 1: attempt every bottom-level build, tracking whether any ran
        let mut pending: Vec<TlasEntry> = Vec::new();
        core::mem::swap(&mut self.entries, &mut pending);
        let mut rebuilt: Vec<TlasEntry> = Vec::new();
        let mut any_built = false;
        proof {
            assert(s0.take(0) =~= Seq::<EntryView>::empty());
            assert(entry_views(rebuilt@) =~= built_entries(s0).take(0));
            assert(entry_views(pending@) =~= s0.skip(0));
        }
        while pending.len() > 0
            invariant
                rebuilt@.len() <= s0.len(),
                entry_views(rebuilt@) =~= built_entries(s0).take(rebuilt@.len() as int),
                entry_views(pending@) =~= s0.skip(rebuilt@.len() as int),
                gpu@.ops =~= base_ops + blas_build_ops(s0.take(rebuilt@.len() as int)),
                gpu@.next_handle == hn,
                any_built == any_dirty(s0.take(rebuilt@.len() as int)),
                scratch.size == scratch_size_for(s0, top_level_requirement),
                forall|j: int|
                    0 <= j < s0.len() ==> scratch_size_for(s0, top_level_requirement)
                        >= #[trigger] s0[j].unit.requirement,
            decreases pending@.len(),
        {
            let ghost kk = rebuilt@.len() as int;
            let ghost pend0 = pending@;
            let mut e = pending.remove(0);
            proof {
                lemma_entry_views_remove(pend0, 0);
                assert(entry_views(pending@) =~= s0.skip(kk + 1));
                assert(e@ == entry_views(pend0)[0]);
                assert(0 <= kk < s0.len());
                assert(e@ == s0[kk]);
                assert(e.unit@ == s0[kk].unit);
                assert(scratch.size >= s0[kk].unit.requirement);
            }
            let b = e.unit.build(gpu, &scratch);
            if b {
                any_built = true;
            }
            let ghost mid = rebuilt@;
            rebuilt.push(e);
            proof {
                let pushed = rebuilt@.last();
                lemma_entry_views_push(mid, pushed);
                lemma_blas_build_ops_step(s0, kk);
                lemma_any_dirty_step(s0, kk);
                assert(entry_views(rebuilt@) =~= built_entries(s0).take(kk + 1));
                assert(gpu@.ops =~= base_ops + blas_build_ops(s0.take(kk + 1)));
            }
        }
        proof {
            assert(s0.skip(rebuilt@.len() as int).len() == 0);
            assert(rebuilt@.len() == s0.len());
            assert(built_entries(s0).take(s0.len() as int) =~= built_entries(s0));
            assert(s0.take(s0.len() as int) =~= s0);
        }
        self.entries = rebuilt;

        // phase 2: one barrier if and only if some bottom-level build ran,
        // then the top-level build, then the closing barrier
        if any_built {
            gpu.memory_barrier();
        }
        gpu.build_top_level(tlas_handle, instance_buffer_id);
        gpu.memory_barrier();

        self.instance_buffer = Some(InstanceBuffer { id: instance_buffer_id, records });

        proof {
            lemma_built_entries_distinct(s0);
            assert(self@.entries =~= built_entries(s0));
            assert(self@ =~= manager_after_build(old(self)@, h0));
            assert(gpu@.ops =~= ops0 + tlas_build_ops(s0, top_level_requirement, h0));
            assert(gpu@ =~= gpu_after_build(
                crate::gpu::GpuView { ops: ops0, next_handle: h0 },
                s0,
                top_level_requirement,
            ));
        }
        true
    }

    /// The descriptor payload that exposes the current generation's handle
    /// list to the shading stage. Only meaningful after a build: requesting
    /// it earlier is a contract violation, which the caller must treat as
    /// fatal, never as an empty payload.
    pub fn write_descriptor_builder(&self) -> (r: DescriptorPayload)
        requires
            self@.top_handle is Some,
        ensures
            r.structures@ =~= self@.structures,
    {
        let mut structures: Vec<u64> = Vec::new();
        let mut i: usize = 0;
        while i < self.structures.len()
            invariant
                i <= self.structures@.len(),
                structures@ =~= self.structures@.take(i as int),
            decreases self.structures@.len() - i,
        {
            structures.push(self.structures[i]);
            proof {
                assert(structures@ =~= self.structures@.take(i + 1 as int));
            }
            i = i + 1;
        }
        proof {
            assert(structures@ =~= self.structures@);
        }
        DescriptorPayload { structures }
    }
}

proof fn lemma_index_of_name_props(s: Seq<EntryView>, n: Seq<char>)
    ensures
        index_of_name(s, n) == -1 || 0 <= index_of_name(s, n) < s.len(),
        index_of_name(s, n) >= 0 ==> s[index_of_name(s, n)].name == n,
        forall|j: int|
            0 <= j < s.len() && (index_of_name(s, n) == -1 || j < index_of_name(s, n))
                ==> s[j].name != n,
    decreases s.len(),
{
    if s.len() > 0 && s[0].name != n {
        lemma_index_of_name_props(s.subrange(1, s.len() as int), n);
        assert forall|j: int|
            0 <= j < s.len() && (index_of_name(s, n) == -1 || j < index_of_name(s, n))
                implies s[j].name != n by {
            if j > 0 {
                assert(s.subrange(1, s.len() as int)[j - 1] == s[j]);
            }
        }
    }
}

proof fn lemma_index_of_name_found(s: Seq<EntryView>, n: Seq<char>, i: int)
    requires
        0 <= i < s.len(),
        s[i].name == n,
        forall|j: int| 0 <= j < i ==> s[j].name != n,
    ensures
        index_of_name(s, n) == i,
    decreases s.len(),
{
    if i > 0 {
        let t = s.subrange(1, s.len() as int);
        assert forall|j: int| 0 <= j < i - 1 implies t[j].name != n by {
            assert(t[j] == s[j + 1]);
        }
        assert(t[i - 1] == s[i]);
        lemma_index_of_name_found(t, n, i - 1);
    }
}

proof fn lemma_index_of_name_absent(s: Seq<EntryView>, n: Seq<char>)
    requires
        forall|j: int| 0 <= j < s.len() ==> s[j].name != n,
    ensures
        index_of_name(s, n) == -1,
    decreases s.len(),
{
    if s.len() > 0 {
        let t = s.subrange(1, s.len() as int);
        assert forall|j: int| 0 <= j < t.len() implies t[j].name != n by {
            assert(t[j] == s[j + 1]);
        }
        lemma_index_of_name_absent(t, n);
    }
}

/// The membership a registry stands for: its name-to-unit map, forgetting
/// slot order. Later slots win, though with distinct names none collide.
pub open spec fn membership(s: Seq<EntryView>) -> Map<Seq<char>, UnitView>
    decreases s.len(),
{
    if s.len() == 0 {
        Map::<Seq<char>, UnitView>::empty()
    } else {
        membership(s.drop_last()).insert(s.last().name, s.last().unit)
    }
}

proof fn lemma_names_distinct_drop_last(s: Seq<EntryView>)
    requires
        s.len() > 0,
        names_distinct(s),
    ensures
        names_distinct(s.drop_last()),
        forall|i: int| 0 <= i < s.len() - 1 ==> #[trigger] s[i].name != s.last().name,
{
    assert forall|i: int, j: int|
        0 <= i < j < s.drop_last().len() implies s.drop_last()[i].name
        != s.drop_last()[j].name by {
        assert(s.drop_last()[i] == s[i]);
        assert(s.drop_last()[j] == s[j]);
    }
}

/// With distinct names, the membership map holds exactly the registry's
/// name-to-unit pairs.
proof fn lemma_membership_char(s: Seq<EntryView>)
    requires
        names_distinct(s),
    ensures
        membership(s).dom().finite(),
        forall|i: int|
            0 <= i < s.len() ==> #[trigger] membership(s).contains_pair(s[i].name, s[i].unit),
        forall|n: Seq<char>|
            #[trigger] membership(s).dom().contains(n) ==> exists|i: int|
                0 <= i < s.len() && s[i].name == n && s[i].unit == membership(s)[n],
    decreases s.len(),
{
    if s.len() > 0 {
        lemma_names_distinct_drop_last(s);
        lemma_membership_char(s.drop_last());
        let m = membership(s);
        assert forall|i: int|
            0 <= i < s.len() implies #[trigger] m.contains_pair(s[i].name, s[i].unit) by {
            if i < s.len() - 1 {
                assert(s.drop_last()[i] == s[i]);
                assert(membership(s.drop_last()).contains_pair(s[i].name, s[i].unit));
                assert(s[i].name != s.last().name);
            } else {
                assert(s[i] == s.last());
            }
        }
        assert forall|n: Seq<char>| #[trigger] m.dom().contains(n) implies exists|i: int|
            0 <= i < s.len() && s[i].name == n && s[i].unit == m[n] by {
            if n == s.last().name {
                assert(s[s.len() - 1].name == n && s[s.len() - 1].unit == m[n]);
            } else {
                let i = choose|i: int|
                    0 <= i < s.drop_last().len() && s.drop_last()[i].name == n
                        && s.drop_last()[i].unit == membership(s.drop_last())[n];
                assert(s[i].name == n && s[i].unit == m[n]);
            }
        }
    }
}

/// With distinct names, the registry's length is its membership's size.
proof fn lemma_membership_len(s: Seq<EntryView>)
    requires
        names_distinct(s),
    ensures
        membership(s).dom().finite(),
        membership(s).dom().len() == s.len(),
    decreases s.len(),
{
    if s.len() > 0 {
        lemma_names_distinct_drop_last(s);
        lemma_membership_len(s.drop_last());
        lemma_membership_char(s.drop_last());
        let d = membership(s.drop_last()).dom();
        if d.contains(s.last().name) {
            let i = choose|i: int|
                0 <= i < s.drop_last().len() && s.drop_last()[i].name == s.last().name
                    && s.drop_last()[i].unit == membership(s.drop_last())[s.last().name];
            assert(s[i].name == s.last().name);
            assert(false);
        }
        vstd::set::axiom_set_insert_len(d, s.last().name);
    }
}

/// The registry's maximum requirement is 0 or some unit's own requirement.
proof fn lemma_max_requirement_attained(s: Seq<EntryView>)
    requires
        s.len() > 0,
    ensures
        exists|i: int|
            0 <= i < s.len() && max_requirement(s) == #[trigger] s[i].unit.requirement,
    decreases s.len(),
{
    if max_requirement(s.drop_last()) >= s.last().unit.requirement {
        if s.len() == 1 {
            assert(max_requirement(s) == s[0].unit.requirement);
        } else {
            lemma_max_requirement_attained(s.drop_last());
            let i = choose|i: int|
                0 <= i < s.drop_last().len() && max_requirement(s.drop_last())
                    == #[trigger] s.drop_last()[i].unit.requirement;
            assert(s[i] == s.drop_last()[i]);
            assert(max_requirement(s) == s[i].unit.requirement);
        }
    } else {
        assert(max_requirement(s) == s[s.len() - 1].unit.requirement);
    }
}

proof fn lemma_membership_remove(s: Seq<EntryView>, i: int)
    requires
        names_distinct(s),
        0 <= i < s.len(),
    ensures
        membership(s.remove(i)) =~= membership(s).remove(s[i].name),
    decreases s.len(),
{
    lemma_names_distinct_drop_last(s);
    lemma_membership_char(s.drop_last());
    if i == s.len() - 1 {
        assert(s.remove(i) =~= s.drop_last());
        if membership(s.drop_last()).dom().contains(s[i].name) {
            let j = choose|j: int|
                0 <= j < s.drop_last().len() && s.drop_last()[j].name == s[i].name
                    && s.drop_last()[j].unit == membership(s.drop_last())[s[i].name];
            assert(s[j].name == s[i].name);
            assert(false);
        }
    } else {
        lemma_membership_remove(s.drop_last(), i);
        assert(s.remove(i).drop_last() =~= s.drop_last().remove(i));
        assert(s.remove(i).last() == s.last());
        assert(s.drop_last()[i] == s[i]);
    }
}

/// `register` acts on the membership as a map insert: whatever slot order
/// the registry keeps, only the name-to-unit association changes.
pub proof fn lemma_register_membership(s: Seq<EntryView>, n: Seq<char>, u: UnitView)
    requires
        names_distinct(s),
    ensures
        membership(register_update(s, n, u)) =~= membership(s).insert(n, u),
{
    lemma_index_of_name_props(s, n);
    if contains_name(s, n) {
        let i = index_of_name(s, n);
        lemma_membership_remove(s, i);
        let t = s.remove(i).push(EntryView { name: n, unit: u });
        assert(t.drop_last() =~= s.remove(i));
        assert(membership(t) =~= membership(s.remove(i)).insert(n, u));
    } else {
        let t = s.push(EntryView { name: n, unit: u });
        assert(t.drop_last() =~= s);
    }
}

/// `unregister` acts on the membership as a map remove; with the name
/// absent, nothing changes at all.
pub proof fn lemma_unregister_membership(s: Seq<EntryView>, n: Seq<char>)
    requires
        names_distinct(s),
    ensures
        membership(unregister_update(s, n)) =~= membership(s).remove(n),
{
    lemma_index_of_name_props(s, n);
    if contains_name(s, n) {
        lemma_membership_remove(s, index_of_name(s, n));
    } else {
        lemma_membership_char(s);
        if membership(s).dom().contains(n) {
            let i = choose|i: int|
                0 <= i < s.len() && s[i].name == n && s[i].unit == membership(s)[n];
            assert(false);
        }
    }
}

/// Only the final membership matters. Two managers whose registries stand
/// for the same name-to-unit map — whatever order registrations happened
/// in — build top-level structures of the same instance count, size the
/// shared scratch buffer identically, need the bottom-level barrier in the
/// same cases, and give every name the same instance record; slot order
/// alone may differ, and instance records are self-describing.
pub proof fn lemma_build_depends_only_on_membership(
    a: Seq<EntryView>,
    b: Seq<EntryView>,
    top_req: u64,
)
    requires
        names_distinct(a),
        names_distinct(b),
        membership(a) == membership(b),
    ensures
        a.len() == b.len(),
        scratch_size_for(a, top_req) == scratch_size_for(b, top_req),
        any_dirty(a) == any_dirty(b),
        forall|i: int|
            0 <= i < a.len() ==> #[trigger] membership(b).contains_pair(a[i].name, a[i].unit),
{
    lemma_membership_len(a);
    lemma_membership_len(b);
    lemma_membership_char(a);
    lemma_membership_char(b);
    lemma_max_requirement_ge(a);
    lemma_max_requirement_ge(b);
    assert forall|s1: Seq<EntryView>, s2: Seq<EntryView>|
        names_distinct(s1) && names_distinct(s2) && membership(s1) == membership(s2)
            && #[trigger] any_dirty(s1) implies #[trigger] any_dirty(s2) by {
        lemma_membership_char(s1);
        lemma_membership_char(s2);
        let i = choose|i: int| 0 <= i < s1.len() && s1[i].unit.dirty;
        assert(membership(s1).contains_pair(s1[i].name, s1[i].unit));
        let j = choose|j: int|
            0 <= j < s2.len() && s2[j].name == s1[i].name && s2[j].unit == membership(s2)[s1[i].name];
        assert(s2[j].unit.dirty);
    }
    assert forall|s1: Seq<EntryView>, s2: Seq<EntryView>|
        names_distinct(s1) && names_distinct(s2) && membership(s1) == membership(s2) implies
        #[trigger] max_requirement(s1) <= #[trigger] max_requirement(s2) by {
        if s1.len() == 0 {
            assert(max_requirement(s1) == 0);
        } else {
            lemma_membership_char(s1);
            lemma_membership_char(s2);
            lemma_max_requirement_attained(s1);
            lemma_max_requirement_ge(s2);
            let i = choose|i: int|
                0 <= i < s1.len() && max_requirement(s1) == #[trigger] s1[i].unit.requirement;
            assert(membership(s1).contains_pair(s1[i].name, s1[i].unit));
            let j = choose|j: int|
                0 <= j < s2.len() && s2[j].name == s1[i].name
                    && s2[j].unit == membership(s2)[s1[i].name];
            assert(max_requirement(s2) >= s2[j].unit.requirement);
        }
    }
    assert(max_requirement(a) == max_requirement(b));
}

/// Building is idempotent in effect: a rebuild leaves the manager clean, so
/// an immediately following build, with no mutation between the two, finds
/// nothing to do and touches neither the manager nor the recording context.
pub proof fn lemma_build_idempotent(m: TlasView, h0: u64)
    ensures
        !manager_after_build(m, h0).modified,
{
}

/// Registering a unit under a fresh name and unregistering that same name
/// before any build leaves the registry exactly as it was: no stale slot
/// survives, and a later build sees the membership both calls never touched.
pub proof fn lemma_register_unregister_round_trip(s: Seq<EntryView>, n: Seq<char>, u: UnitView)
    requires
        names_distinct(s),
        !contains_name(s, n),
    ensures
        unregister_update(register_update(s, n, u), n) =~= s,
{
    lemma_index_of_name_props(s, n);
    let e = EntryView { name: n, unit: u };
    let t = s.push(e);
    assert forall|j: int| 0 <= j < s.len() implies t[j].name != n by {
        assert(t[j] == s[j]);
    }
    lemma_index_of_name_found(t, n, s.len() as int);
    assert(register_update(s, n, u) == t);
    assert(t.remove(s.len() as int) =~= s);
}

/// Every unit's reported requirement is below the registry's maximum.
proof fn lemma_max_requirement_ge(s: Seq<EntryView>)
    ensures
        forall|i: int| 0 <= i < s.len() ==> max_requirement(s) >= #[trigger] s[i].unit.requirement,
    decreases s.len(),
{
    if s.len() > 0 {
        lemma_max_requirement_ge(s.drop_last());
        assert forall|i: int|
            0 <= i < s.len() implies max_requirement(s) >= #[trigger] s[i].unit.requirement by {
            if i < s.len() - 1 {
                assert(s.drop_last()[i] == s[i]);
            } else {
                assert(s.last() == s[i]);
            }
        }
    }
}

proof fn lemma_max_requirement_step(s: Seq<EntryView>, k: int)
    requires
        0 <= k < s.len(),
    ensures
        max_requirement(s.take(k + 1)) == if max_requirement(s.take(k)) >= s[k].unit.requirement {
            max_requirement(s.take(k))
        } else {
            s[k].unit.requirement
        },
{
    assert(s.take(k + 1).drop_last() =~= s.take(k));
    assert(s.take(k + 1).last() == s[k]);
}

/// The shared scratch buffer is large enough for every single build step:
/// at least every registered unit's own reported requirement, and at least
/// the top-level structure's own. Builds reuse it strictly sequentially
/// within one submission, so the largest single step, not the sum, governs.
pub proof fn lemma_scratch_size_dominates(s: Seq<EntryView>, top_req: u64)
    ensures
        scratch_size_for(s, top_req) >= top_req,
        forall|i: int|
            0 <= i < s.len() ==> scratch_size_for(s, top_req)
                >= #[trigger] s[i].unit.requirement,
{
    lemma_max_requirement_ge(s);
}

proof fn lemma_blas_build_ops_step(s: Seq<EntryView>, k: int)
    requires
        0 <= k < s.len(),
    ensures
        blas_build_ops(s.take(k + 1)) == blas_build_ops(s.take(k)) + if s[k].unit.dirty {
            seq![GpuOp::BuildBottomLevel { handle: s[k].unit.handle }]
        } else {
            Seq::<GpuOp>::empty()
        },
{
    assert(s.take(k + 1).drop_last() =~= s.take(k));
    assert(s.take(k + 1).last() == s[k]);
}

proof fn lemma_any_dirty_step(s: Seq<EntryView>, k: int)
    requires
        0 <= k < s.len(),
    ensures
        any_dirty(s.take(k + 1)) == (any_dirty(s.take(k)) || s[k].unit.dirty),
{
    if any_dirty(s.take(k)) {
        let i = choose|i: int| 0 <= i < s.take(k).len() && #[trigger] s.take(k)[i].unit.dirty;
        assert(s.take(k + 1)[i].unit.dirty);
    }
    if s[k].unit.dirty {
        assert(s.take(k + 1)[k].unit.dirty);
    }
    if any_dirty(s.take(k + 1)) {
        let i = choose|i: int| 0 <= i < s.take(k + 1).len() && #[trigger] s.take(k + 1)[i].unit.dirty;
        if i < k {
            assert(s.take(k)[i].unit.dirty);
        } else {
            assert(s[k].unit.dirty);
        }
    }
}

proof fn lemma_built_entries_distinct(s: Seq<EntryView>)
    requires
        names_distinct(s),
    ensures
        names_distinct(built_entries(s)),
{
    assert forall|i: int, j: int|
        0 <= i < j < built_entries(s).len() implies built_entries(s)[i].name
        != built_entries(s)[j].name by {
        assert(built_entries(s)[i].name == s[i].name);
        assert(built_entries(s)[j].name == s[j].name);
    }
}

proof fn lemma_entry_views_push(s: Seq<TlasEntry>, e: TlasEntry)
    ensures
        entry_views(s.push(e)) =~= entry_views(s).push(e@),
{
}

proof fn lemma_entry_views_remove(s: Seq<TlasEntry>, i: int)
    requires
        0 <= i < s.len(),
    ensures
        entry_views(s.remove(i)) =~= entry_views(s).remove(i),
{
}

proof fn lemma_names_distinct_remove(s: Seq<EntryView>, i: int)
    requires
        0 <= i < s.len(),
        names_distinct(s),
    ensures
        names_distinct(s.remove(i)),
        forall|j: int| 0 <= j < s.remove(i).len() ==> #[trigger] s.remove(i)[j].name != s[i].name,
{
    assert forall|j: int| 0 <= j < s.remove(i).len() implies #[trigger] s.remove(i)[j].name
        != s[i].name by {
        if j < i {
            assert(s.remove(i)[j] == s[j]);
        } else {
            assert(s.remove(i)[j] == s[j + 1]);
        }
    }
    assert forall|a: int, b: int| 0 <= a < b < s.remove(i).len() implies s.remove(i)[a].name
        != s.remove(i)[b].name by {
        assert(s.remove(i)[a] == if a < i { s[a] } else { s[a + 1] });
        assert(s.remove(i)[b] == if b < i { s[b] } else { s[b + 1] });
    }
}

proof fn lemma_names_distinct_push(s: Seq<EntryView>, e: EntryView)
    requires
        names_distinct(s),
        forall|j: int| 0 <= j < s.len() ==> s[j].name != e.name,
    ensures
        names_distinct(s.push(e)),
{
    assert forall|a: int, b: int| 0 <= a < b < s.push(e).len() implies s.push(e)[a].name
        != s.push(e)[b].name by {
        assert(s.push(e)[a] == s[a]);
        if b < s.len() {
            assert(s.push(e)[b] == s[b]);
        } else {
            assert(s.push(e)[b] == e);
        }
    }
}

} // verus!
