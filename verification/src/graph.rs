//! The render graph: a registry of resource slots, a list of passes in
//! declaration order, and the recorder that turns both into a linear
//! command schedule with exactly the barriers the declared accesses need.

use vstd::prelude::*;
use vstd::string::StringExecFns;
use crate::access::{AccessType, spec_is_read_access, spec_is_write_access, spec_is_attachment_access, is_read_access, is_write_access, is_attachment_access, needs_barrier};
use crate::resource::{ResourceDesc, ResourceKind, ImageDesc, Image, Buffer, spec_kind_of, kind_of};
use crate::schedule::{PassRef, RecordedCommand, state_after_decls, barriers_of_decls, decls_on, barriers_on, slot_transitions, last_access, decls_in_bounds, lemma_state_len, lemma_decl_schedule_on_slot, lemma_decls_concat, lemma_decls_push, lemma_barriers_on_concat, lemma_barriers_on_barrier_free, lemma_decls_on_concat, lemma_slot_transitions_concat};

verus! {

/// An opaque build-time reference to one resource slot of the registry,
/// tagged with the kind of resource the slot must hold. Handles are valid
/// only for the graph build that produced them.
#[derive(Clone, Copy, PartialEq, Eq, Structural, Debug)]
pub struct Handle {
    pub slot: usize,
    pub kind: ResourceKind,
}

/// An opaque identifier of a pipeline registered for this build.
#[derive(Clone, Copy, PartialEq, Eq, Structural, Debug)]
pub struct PipelineHandle {
    pub id: usize,
}

/// A pipeline request: the graph only sequences when binds happen; the
/// shader paths are resolved by the device boundary.
#[derive(Clone, Debug)]
pub enum PipelineDesc {
    Compute { path: String },
    Raster { vertex_path: String, pixel_path: String, face_cull: bool },
}

/// One physical resource slot of the registry: its shape, the access it
/// starts the frame in, and whether its storage is owned outside the graph.
#[derive(Clone, Copy, PartialEq, Eq, Structural, Debug)]
pub struct ResourceSlot {
    pub desc: ResourceDesc,
    pub initial_access: AccessType,
    pub imported: bool,
}

/// An indexed draw over an uploaded index buffer, identified by the id the
/// uploader assigned to it.
#[derive(Clone, Copy, PartialEq, Eq, Structural, Debug)]
pub struct DrawIndexed {
    pub index_buffer_id: u64,
    pub index_count: u32,
}

/// The deferred body of a pass: a plain tagged value the device boundary
/// interprets when `ExecutePass` is reached, never a capture into graph
/// internals. Color and depth clear values travel as raw bit patterns.
#[derive(Clone, Debug)]
pub enum PassBody {
    Empty,
    ClearColor { value_bits: [u32; 4] },
    ClearDepth { depth_bits: u32, stencil: u32 },
    Compute {
        pipeline: PipelineHandle,
        dispatch_x: u32,
        dispatch_y: u32,
        dispatch_z: u32,
        bindings: Vec<PassRef>,
    },
    Raster {
        pipeline: PipelineHandle,
        bindings: Vec<PassRef>,
        draws: Vec<DrawIndexed>,
        bindless_descriptor_set: u64,
    },
}

/// One finalized unit of GPU work: its declared reads, writes and raster
/// attachments, and its deferred body.
#[derive(Clone, Debug)]
pub struct Pass {
    pub reads: Vec<PassRef>,
    pub writes: Vec<PassRef>,
    pub rasters: Vec<PassRef>,
    pub body: PassBody,
}

/// All declarations of a pass in the order the recorder visits them.
pub open spec fn decls_of_pass(p: Pass) -> Seq<PassRef> {
    p.reads@ + p.writes@ + p.rasters@
}

/// All declarations of a sequence of passes, in order.
pub open spec fn all_decls_of(ps: Seq<Pass>) -> Seq<PassRef>
    decreases ps.len(),
{
    if ps.len() == 0 {
        Seq::empty()
    } else {
        decls_of_pass(ps.first()) + all_decls_of(ps.drop_first())
    }
}

/// The commands bracketing a pass body: raster passes open and close a
/// render-pass bracket around it, all others execute bare.
pub open spec fn bracket_of_pass(p: Pass, idx: int) -> Seq<RecordedCommand> {
    if p.rasters@.len() > 0 {
        seq![
            RecordedCommand::BeginRenderPass { pass: idx as usize },
            RecordedCommand::ExecutePass { pass: idx as usize },
            RecordedCommand::EndRenderPass { pass: idx as usize },
        ]
    } else {
        seq![RecordedCommand::ExecutePass { pass: idx as usize }]
    }
}

/// The tracked accesses after a sequence of passes.
pub open spec fn state_after_passes(st: Seq<AccessType>, ps: Seq<Pass>) -> Seq<AccessType>
    decreases ps.len(),
{
    if ps.len() == 0 {
        st
    } else {
        state_after_passes(state_after_decls(st, decls_of_pass(ps.first())), ps.drop_first())
    }
}

/// The full command schedule of a sequence of passes, starting at pass
/// index `idx`: per pass, its barriers, then its bracketed body.
pub open spec fn commands_of_passes(st: Seq<AccessType>, ps: Seq<Pass>, idx: int) -> Seq<
    RecordedCommand,
>
    decreases ps.len(),
{
    if ps.len() == 0 {
        Seq::empty()
    } else {
        barriers_of_decls(st, decls_of_pass(ps.first())) + bracket_of_pass(ps.first(), idx)
            + commands_of_passes(
            state_after_decls(st, decls_of_pass(ps.first())),
            ps.drop_first(),
            idx + 1,
        )
    }
}

/// A pass whose declarations all stay inside a registry of `n` slots.
pub open spec fn pass_in_bounds(p: Pass, n: nat) -> bool {
    decls_in_bounds(decls_of_pass(p), n)
}

/// The render graph of one frame.
pub struct RenderGraph {
    pub resources: Vec<ResourceSlot>,
    pub passes: Vec<Pass>,
    pub pipelines: Vec<PipelineDesc>,
    pub exports: Vec<PassRef>,
}

impl RenderGraph {
    /// The access each slot starts the frame in.
    pub open spec fn initial_state(self) -> Seq<AccessType> {
        self.resources@.map_values(|r: ResourceSlot| r.initial_access)
    }

    /// A handle that refers to a live slot of the right kind.
    pub open spec fn spec_valid_handle(self, h: Handle) -> bool {
        &&& h.slot < self.resources@.len()
        &&& spec_kind_of(&self.resources@[h.slot as int].desc) == h.kind
    }

    /// Every declaration of every pass, and every export, names a live slot.
    pub open spec fn graph_wf(self) -> bool {
        &&& forall|i: int|
            0 <= i < self.passes@.len() ==> pass_in_bounds(
                #[trigger] self.passes@[i],
                self.resources@.len(),
            )
        &&& decls_in_bounds(self.exports@, self.resources@.len())
    }

    /// Every declaration of the whole build, passes first, exports last.
    pub open spec fn all_decls(self) -> Seq<PassRef> {
        all_decls_of(self.passes@) + self.exports@
    }

    /// The schedule this graph records: the passes' commands, then the
    /// final transitions the exports ask for.
    pub open spec fn spec_commands(self) -> Seq<RecordedCommand> {
        commands_of_passes(self.initial_state(), self.passes@, 0) + barriers_of_decls(
            state_after_passes(self.initial_state(), self.passes@),
            self.exports@,
        )
    }

    /// The access each slot is left in when the frame ends.
    pub open spec fn spec_final_state(self) -> Seq<AccessType> {
        state_after_decls(
            state_after_passes(self.initial_state(), self.passes@),
            self.exports@,
        )
    }

    /// A fresh graph with no resources and no passes.
    pub fn new() -> (rg: RenderGraph)
        ensures
            rg.resources@ == Seq::<ResourceSlot>::empty(),
            rg.passes@ == Seq::<Pass>::empty(),
            rg.pipelines@ == Seq::<PipelineDesc>::empty(),
            rg.exports@ == Seq::<PassRef>::empty(),
    {
        RenderGraph { resources: Vec::new(), passes: Vec::new(), pipelines: Vec::new(), exports: Vec::new() }
    }

    /// Begin declaring a pass. The builder is a plain value: dropping it
    /// without `render` leaves the graph exactly as it was, so an
    /// unfinished pass contributes no commands and no access changes.
    pub fn add_pass(&self) -> (b: PassBuilder)
        ensures
            b.reads@ == Seq::<PassRef>::empty(),
            b.writes@ == Seq::<PassRef>::empty(),
            b.rasters@ == Seq::<PassRef>::empty(),
    {
        PassBuilder { reads: Vec::new(), writes: Vec::new(), rasters: Vec::new() }
    }

    /// Allocate a fresh slot for a resource created by this build, tagged
    /// uninitialized so its first use emits the first transition.
    pub fn create(&mut self, desc: &ResourceDesc) -> (h: Handle)
        ensures
            final(self).resources@ == old(self).resources@.push(
                ResourceSlot { desc: *desc, initial_access: AccessType::Nothing, imported: false },
            ),
            final(self).passes@ == old(self).passes@,
            final(self).pipelines@ == old(self).pipelines@,
            final(self).exports@ == old(self).exports@,
            h.slot == old(self).resources@.len(),
            h.kind == spec_kind_of(desc),
            final(self).spec_valid_handle(h),
            old(self).graph_wf() ==> final(self).graph_wf(),
            forall|g: Handle| old(self).spec_valid_handle(g) ==> final(self).spec_valid_handle(g),
    {
        let slot = self.resources.len();
        let kind = kind_of(desc);
        self.resources.push(ResourceSlot { desc: *desc, initial_access: AccessType::Nothing, imported: false });
        proof {
            lemma_wf_grows(*old(self), *self);
        }
        Handle { slot, kind }
    }

    /// Wrap an externally owned resource into this build, tagged with the
    /// access its owner last left it in, so the first transition out of it
    /// is computed correctly. Its storage stays the owner's.
    pub fn import(&mut self, desc: &ResourceDesc, current_access: AccessType) -> (h: Handle)
        ensures
            final(self).resources@ == old(self).resources@.push(
                ResourceSlot { desc: *desc, initial_access: current_access, imported: true },
            ),
            final(self).passes@ == old(self).passes@,
            final(self).pipelines@ == old(self).pipelines@,
            final(self).exports@ == old(self).exports@,
            h.slot == old(self).resources@.len(),
            h.kind == spec_kind_of(desc),
            final(self).spec_valid_handle(h),
            old(self).graph_wf() ==> final(self).graph_wf(),
            forall|g: Handle| old(self).spec_valid_handle(g) ==> final(self).spec_valid_handle(g),
    {
        let slot = self.resources.len();
        let kind = kind_of(desc);
        self.resources.push(ResourceSlot { desc: *desc, initial_access: current_access, imported: true });
        proof {
            lemma_wf_grows(*old(self), *self);
        }
        Handle { slot, kind }
    }

    /// Import a long-lived image at the access its owner tracks for it.
    pub fn import_image(&mut self, img: &Image) -> (h: Handle)
        ensures
            final(self).resources@ == old(self).resources@.push(
                ResourceSlot {
                    desc: ResourceDesc::Image(img.desc),
                    initial_access: img.access,
                    imported: true,
                },
            ),
            final(self).passes@ == old(self).passes@,
            final(self).pipelines@ == old(self).pipelines@,
            final(self).exports@ == old(self).exports@,
            h.slot == old(self).resources@.len(),
            h.kind == ResourceKind::Image,
            final(self).spec_valid_handle(h),
            old(self).graph_wf() ==> final(self).graph_wf(),
            forall|g: Handle| old(self).spec_valid_handle(g) ==> final(self).spec_valid_handle(g),
    {
        self.import(&ResourceDesc::Image(img.desc), img.access)
    }

    /// Ask the frame to leave the resource in `final_access` when it ends:
    /// recorded as one more declaration after the last pass, so it emits a
    /// final barrier exactly when the tracked access still differs.
    pub fn export(&mut self, h: Handle, final_access: AccessType)
        requires
            old(self).spec_valid_handle(h),
        ensures
            final(self).exports@ == old(self).exports@.push(
                PassRef { slot: h.slot, access: final_access },
            ),
            final(self).resources@ == old(self).resources@,
            final(self).passes@ == old(self).passes@,
            final(self).pipelines@ == old(self).pipelines@,
            old(self).graph_wf() ==> final(self).graph_wf(),
    {
        self.exports.push(PassRef { slot: h.slot, access: final_access });
        proof {
            if old(self).graph_wf() {
                assert(forall|i: int|
                    0 <= i < self.exports@.len() - 1 ==> self.exports@[i] == old(self).exports@[i]);
            }
        }
    }

    /// The shape a live image handle refers to.
    pub fn image_desc(&self, h: &Handle) -> (d: ImageDesc)
        requires
            self.spec_valid_handle(*h),
            h.kind == ResourceKind::Image,
        ensures
            self.resources@[h.slot as int].desc == ResourceDesc::Image(d),
    {
        match &self.resources[h.slot].desc {
            ResourceDesc::Image(d) => *d,
            ResourceDesc::Buffer(_) => {
                proof {
                    assert(false);
                }
                ImageDesc { extent_x: 0, extent_y: 0, extent_z: 0, format: crate::resource::ImageFormat::Rgba8Unorm, usage: 0 }
            },
        }
    }

    /// Record the frame: walk the passes in declaration order, emit a
    /// barrier for every access change, bracket raster passes, and finish
    /// with the export transitions. Returns the command schedule and the
    /// access every slot is left in.
    pub fn record(&self) -> (r: (Vec<RecordedCommand>, Vec<AccessType>))
        requires
            self.graph_wf(),
        ensures
            r.0@ == self.spec_commands(),
            r.1@ == self.spec_final_state(),
            r.1@.len() == self.resources@.len(),
    {
        let ghost init = self.initial_state();
        let mut state: Vec<AccessType> = Vec::new();
        let mut i: usize = 0;
        while i < self.resources.len()
            invariant
                i <= self.resources@.len(),
                state@ =~= init.take(i as int),
                init == self.initial_state(),
            decreases self.resources@.len() - i,
        {
            state.push(self.resources[i].initial_access);
            assert(state@ =~= init.take(i as int + 1));
            i += 1;
        }
        assert(state@ =~= init);

        let mut cmds: Vec<RecordedCommand> = Vec::new();
        let mut pi: usize = 0;
        while pi < self.passes.len()
            invariant
                pi <= self.passes@.len(),
                self.graph_wf(),
                init == self.initial_state(),
                state@.len() == self.resources@.len(),
                state@ == state_after_passes(init, self.passes@.take(pi as int)),
                cmds@ == commands_of_passes(init, self.passes@.take(pi as int), 0),
            decreases self.passes@.len() - pi,
        {
            let ghost prefix = self.passes@.take(pi as int);
            let ghost st_before = state@;
            let ghost cmds_before = cmds@;
            let p = &self.passes[pi];
            let mut ds: Vec<PassRef> = Vec::new();
            push_all(&mut ds, &p.reads);
            push_all(&mut ds, &p.writes);
            push_all(&mut ds, &p.rasters);
            assert(ds@ == decls_of_pass(*p));
            assert(decls_in_bounds(ds@, state@.len()));
            apply_decls(&mut state, &mut cmds, &ds);
            if p.rasters.len() > 0 {
                cmds.push(RecordedCommand::BeginRenderPass { pass: pi });
                cmds.push(RecordedCommand::ExecutePass { pass: pi });
                cmds.push(RecordedCommand::EndRenderPass { pass: pi });
            } else {
                cmds.push(RecordedCommand::ExecutePass { pass: pi });
            }
            proof {
                lemma_passes_push(init, prefix, self.passes@[pi as int], 0);
                assert(self.passes@.take(pi as int + 1) =~= prefix.push(self.passes@[pi as int]));
                assert(cmds@ =~= (cmds_before + barriers_of_decls(st_before, decls_of_pass(
                    self.passes@[pi as int],
                ))) + bracket_of_pass(self.passes@[pi as int], pi as int));
                assert(cmds@ =~= commands_of_passes(init, self.passes@.take(pi as int + 1), 0));
                lemma_state_len(st_before, decls_of_pass(self.passes@[pi as int]));
            }
            pi += 1;
        }
        assert(self.passes@.take(self.passes@.len() as int) =~= self.passes@);
        proof {
            lemma_state_after_passes_len(init, self.passes@);
        }
        apply_decls(&mut state, &mut cmds, &self.exports);
        (cmds, state)
    }
}

/// Growing the registry keeps every pass and export in bounds.
proof fn lemma_wf_grows(pre: RenderGraph, post: RenderGraph)
    requires
        post.resources@.len() >= pre.resources@.len(),
        post.passes@ == pre.passes@,
        post.exports@ == pre.exports@,
    ensures
        pre.graph_wf() ==> post.graph_wf(),
{
    if pre.graph_wf() {
        assert forall|i: int|
            0 <= i < post.passes@.len() implies pass_in_bounds(
            #[trigger] post.passes@[i],
            post.resources@.len(),
        ) by {
            assert(pass_in_bounds(pre.passes@[i], pre.resources@.len()));
        }
    }
}

/// Append every declaration of `src` to `dst`.
fn push_all(dst: &mut Vec<PassRef>, src: &Vec<PassRef>)
    ensures
        final(dst)@ == old(dst)@ + src@,
{
    let ghost base = dst@;
    let mut j: usize = 0;
    while j < src.len()
        invariant
            j <= src@.len(),
            dst@ =~= base + src@.take(j as int),
        decreases src@.len() - j,
    {
        dst.push(src[j]);
        assert(dst@ =~= base + src@.take(j as int + 1));
        j += 1;
    }
    assert(base + src@.take(src@.len() as int) =~= base + src@);
}

/// Apply one run of declarations: emit a barrier wherever the tracked
/// access differs from the declared one, and adopt the declared access.
fn apply_decls(state: &mut Vec<AccessType>, cmds: &mut Vec<RecordedCommand>, ds: &Vec<PassRef>)
    requires
        decls_in_bounds(ds@, old(state)@.len()),
    ensures
        final(state)@ == state_after_decls(old(state)@, ds@),
        final(state)@.len() == old(state)@.len(),
        final(cmds)@ == old(cmds)@ + barriers_of_decls(old(state)@, ds@),
{
    let ghost st0 = state@;
    let ghost cmds0 = cmds@;
    let mut j: usize = 0;
    while j < ds.len()
        invariant
            j <= ds@.len(),
            decls_in_bounds(ds@, st0.len()),
            state@.len() == st0.len(),
            state@ == state_after_decls(st0, ds@.take(j as int)),
            cmds@ == cmds0 + barriers_of_decls(st0, ds@.take(j as int)),
        decreases ds@.len() - j,
    {
        let d = ds[j];
        let ghost st_mid = state@;
        let prev = state[d.slot];
        if needs_barrier(prev, d.access) {
            cmds.push(RecordedCommand::Barrier {
                slot: d.slot,
                prev_access: prev,
                next_access: d.access,
            });
        }
        state[d.slot] = d.access;
        proof {
            lemma_decls_push(st0, ds@.take(j as int), d);
            assert(ds@.take(j as int + 1) =~= ds@.take(j as int).push(d));
            if st_mid[d.slot as int] != d.access {
                assert(cmds@ =~= cmds0 + barriers_of_decls(st0, ds@.take(j as int + 1)));
            } else {
                assert(cmds@ =~= cmds0 + barriers_of_decls(st0, ds@.take(j as int + 1)));
            }
        }
        j += 1;
    }
    assert(ds@.take(ds@.len() as int) =~= ds@);
}

/// Applying passes never changes how many slots are tracked.
pub proof fn lemma_state_after_passes_len(st: Seq<AccessType>, ps: Seq<Pass>)
    requires
        forall|i: int| 0 <= i < ps.len() ==> pass_in_bounds(#[trigger] ps[i], st.len()),
    ensures
        state_after_passes(st, ps).len() == st.len(),
    decreases ps.len(),
{
    if ps.len() > 0 {
        assert(ps[0] == ps.first());
        lemma_state_len(st, decls_of_pass(ps.first()));
        let st2 = state_after_decls(st, decls_of_pass(ps.first()));
        assert(forall|i: int| 0 <= i < ps.drop_first().len() ==> ps.drop_first()[i] == ps[i + 1]);
        lemma_state_after_passes_len(st2, ps.drop_first());
    }
}

/// Finalizing one more pass appends exactly its barriers and its bracket
/// to the schedule, and advances the tracked state by its declarations.
pub proof fn lemma_passes_push(st: Seq<AccessType>, ps: Seq<Pass>, p: Pass, idx: int)
    ensures
        state_after_passes(st, ps.push(p)) == state_after_decls(
            state_after_passes(st, ps),
            decls_of_pass(p),
        ),
        commands_of_passes(st, ps.push(p), idx) == commands_of_passes(st, ps, idx)
            + barriers_of_decls(state_after_passes(st, ps), decls_of_pass(p)) + bracket_of_pass(
            p,
            idx + ps.len(),
        ),
    decreases ps.len(),
{
    if ps.len() == 0 {
        let single = ps.push(p);
        assert(single.len() == 1);
        assert(single.first() == p);
        assert(single.drop_first() =~= Seq::<Pass>::empty());
        let st2 = state_after_decls(st, decls_of_pass(p));
        assert(state_after_passes(st2, Seq::<Pass>::empty()) == st2);
        assert(commands_of_passes(st2, Seq::<Pass>::empty(), idx + 1) == Seq::<
            RecordedCommand,
        >::empty());
        assert(state_after_passes(st, single) == st2);
        assert(state_after_passes(st, ps) == st);
        assert(commands_of_passes(st, ps, idx) =~= Seq::<RecordedCommand>::empty());
        assert(commands_of_passes(st, single, idx) == barriers_of_decls(st, decls_of_pass(p))
            + bracket_of_pass(p, idx) + Seq::<RecordedCommand>::empty());
        assert(barriers_of_decls(st, decls_of_pass(p)) + bracket_of_pass(p, idx) + Seq::<
            RecordedCommand,
        >::empty() =~= Seq::<RecordedCommand>::empty() + barriers_of_decls(
            st,
            decls_of_pass(p),
        ) + bracket_of_pass(p, idx));
    } else {
        let q = ps.first();
        let st2 = state_after_decls(st, decls_of_pass(q));
        assert(ps.push(p).first() == q);
        assert(ps.push(p).drop_first() =~= ps.drop_first().push(p));
        lemma_passes_push(st2, ps.drop_first(), p, idx + 1);
        let head = barriers_of_decls(st, decls_of_pass(q)) + bracket_of_pass(q, idx);
        let mid = commands_of_passes(st2, ps.drop_first(), idx + 1);
        let tailb = barriers_of_decls(
            state_after_passes(st2, ps.drop_first()),
            decls_of_pass(p),
        );
        let tailc = bracket_of_pass(p, idx + 1 + ps.drop_first().len());
        assert(head + (mid + tailb + tailc) =~= (head + mid) + tailb + tailc);
        assert(idx + 1 + ps.drop_first().len() == idx + ps.len());
    }
}

/// The builder of one pass: it accumulates declarations as a plain value
/// and touches the graph only through the methods that take it. A builder
/// that never reaches `render` changes nothing.
pub struct PassBuilder {
    pub reads: Vec<PassRef>,
    pub writes: Vec<PassRef>,
    pub rasters: Vec<PassRef>,
}

impl PassBuilder {
    /// Register a brand-new resource; the returned handle is usable
    /// immediately as a write target of this or any later pass.
    pub fn create(&self, rg: &mut RenderGraph, desc: &ResourceDesc) -> (h: Handle)
        ensures
            final(rg).resources@ == old(rg).resources@.push(
                ResourceSlot { desc: *desc, initial_access: AccessType::Nothing, imported: false },
            ),
            final(rg).passes@ == old(rg).passes@,
            final(rg).pipelines@ == old(rg).pipelines@,
            final(rg).exports@ == old(rg).exports@,
            h.slot == old(rg).resources@.len(),
            h.kind == spec_kind_of(desc),
            final(rg).spec_valid_handle(h),
            old(rg).graph_wf() ==> final(rg).graph_wf(),
            forall|g: Handle| old(rg).spec_valid_handle(g) ==> final(rg).spec_valid_handle(g),
    {
        rg.create(desc)
    }

    /// Declare a read of the resource behind `h`; the access must be
    /// read-capable.
    pub fn read(&mut self, h: &Handle, access: AccessType) -> (r: PassRef)
        requires
            spec_is_read_access(access),
        ensures
            r == (PassRef { slot: h.slot, access }),
            final(self).reads@ == old(self).reads@.push(r),
            final(self).writes@ == old(self).writes@,
            final(self).rasters@ == old(self).rasters@,
    {
        let r = PassRef { slot: h.slot, access };
        self.reads.push(r);
        r
    }

    /// Declare a write of the resource behind `h`; the access must be
    /// write-capable. Later passes see this pass's output as the
    /// resource's new state.
    pub fn write(&mut self, h: &mut Handle, access: AccessType) -> (r: PassRef)
        requires
            spec_is_write_access(access),
        ensures
            *final(h) == *old(h),
            r == (PassRef { slot: old(h).slot, access }),
            final(self).writes@ == old(self).writes@.push(r),
            final(self).reads@ == old(self).reads@,
            final(self).rasters@ == old(self).rasters@,
    {
        let r = PassRef { slot: h.slot, access };
        self.writes.push(r);
        r
    }

    /// Declare a raster attachment: a write that additionally takes part
    /// in the render-pass bracket instead of generic binding.
    pub fn raster(&mut self, h: &mut Handle, access: AccessType) -> (r: PassRef)
        requires
            spec_is_attachment_access(access),
        ensures
            *final(h) == *old(h),
            r == (PassRef { slot: old(h).slot, access }),
            final(self).rasters@ == old(self).rasters@.push(r),
            final(self).reads@ == old(self).reads@,
            final(self).writes@ == old(self).writes@,
    {
        let r = PassRef { slot: h.slot, access };
        self.rasters.push(r);
        r
    }

    /// Request a compute pipeline by shader path for this build.
    pub fn register_compute_pipeline(&self, rg: &mut RenderGraph, path: &str) -> (p: PipelineHandle)
        ensures
            p.id == old(rg).pipelines@.len(),
            final(rg).pipelines@.len() == old(rg).pipelines@.len() + 1,
            final(rg).pipelines@ == old(rg).pipelines@.push(final(rg).pipelines@[p.id as int]),
            final(rg).pipelines@[p.id as int] matches PipelineDesc::Compute { path: q } && q@
                == path@,
            final(rg).resources@ == old(rg).resources@,
            final(rg).passes@ == old(rg).passes@,
            final(rg).exports@ == old(rg).exports@,
    {
        let id = rg.pipelines.len();
        rg.pipelines.push(PipelineDesc::Compute { path: String::from_str(path) });
        proof {
            assert(rg.pipelines@ =~= old(rg).pipelines@.push(rg.pipelines@[id as int]));
        }
        PipelineHandle { id }
    }

    /// Request a raster pipeline from a vertex and a pixel shader.
    pub fn register_raster_pipeline(
        &self,
        rg: &mut RenderGraph,
        vertex_path: &str,
        pixel_path: &str,
        face_cull: bool,
    ) -> (p: PipelineHandle)
        ensures
            p.id == old(rg).pipelines@.len(),
            final(rg).pipelines@.len() == old(rg).pipelines@.len() + 1,
            final(rg).pipelines@ == old(rg).pipelines@.push(final(rg).pipelines@[p.id as int]),
            final(rg).pipelines@[p.id as int] matches PipelineDesc::Raster {
                vertex_path: v,
                pixel_path: q,
                face_cull: c,
            } && v@ == vertex_path@ && q@ == pixel_path@ && c == face_cull,
            final(rg).resources@ == old(rg).resources@,
            final(rg).passes@ == old(rg).passes@,
            final(rg).exports@ == old(rg).exports@,
    {
        let id = rg.pipelines.len();
        rg.pipelines.push(PipelineDesc::Raster {
            vertex_path: String::from_str(vertex_path),
            pixel_path: String::from_str(pixel_path),
            face_cull,
        });
        proof {
            assert(rg.pipelines@ =~= old(rg).pipelines@.push(rg.pipelines@[id as int]));
        }
        PipelineHandle { id }
    }

    /// Finalize the pass: this is the only point at which it becomes part
    /// of the graph. The body is stored and interpreted at record time.
    pub fn render(self, rg: &mut RenderGraph, body: PassBody)
        requires
            decls_in_bounds(self.reads@ + self.writes@ + self.rasters@, old(rg).resources@.len()),
        ensures
            final(rg).passes@ == old(rg).passes@.push(
                Pass { reads: self.reads, writes: self.writes, rasters: self.rasters, body },
            ),
            final(rg).resources@ == old(rg).resources@,
            final(rg).pipelines@ == old(rg).pipelines@,
            final(rg).exports@ == old(rg).exports@,
            final(rg).graph_wf() == old(rg).graph_wf(),
    {
        let ghost pushed = Pass { reads: self.reads, writes: self.writes, rasters: self.rasters, body };
        let reads = self.reads;
        let writes = self.writes;
        let rasters = self.rasters;
        rg.passes.push(Pass { reads, writes, rasters, body });
        proof {
            assert(decls_of_pass(pushed) == pushed.reads@ + pushed.writes@ + pushed.rasters@);
            assert(forall|i: int|
                0 <= i < old(rg).passes@.len() ==> rg.passes@[i] == old(rg).passes@[i]);
            if old(rg).graph_wf() {
                assert(rg.graph_wf());
            }
            if rg.graph_wf() {
                assert(forall|i: int|
                    0 <= i < old(rg).passes@.len() ==> pass_in_bounds(
                        #[trigger] old(rg).passes@[i],
                        old(rg).resources@.len(),
                    ));
            }
        }
    }
}

/// The per-resource law of a whole build. For every slot, the barriers the
/// recorded schedule emits for it are exactly the access changes of its own
/// declaration sequence: no barrier while the declared access repeats
/// (read-after-read in particular), exactly one per change, and the access
/// the frame leaves the slot in is the last declared one (or its starting
/// access when it was never declared).
pub proof fn lemma_graph_schedule_per_resource(g: RenderGraph, slot: usize)
    requires
        g.graph_wf(),
        slot < g.resources@.len(),
    ensures
        barriers_on(g.spec_commands(), slot) == slot_transitions(
            slot,
            g.initial_state()[slot as int],
            decls_on(g.all_decls(), slot),
        ),
        g.spec_final_state().len() == g.resources@.len(),
        g.spec_final_state()[slot as int] == last_access(
            g.initial_state()[slot as int],
            decls_on(g.all_decls(), slot),
        ),
{
    let init = g.initial_state();
    lemma_commands_projection(init, g.passes@, 0, slot);
    lemma_state_after_passes_len(init, g.passes@);
    let stp = state_after_passes(init, g.passes@);
    lemma_barriers_on_concat(
        commands_of_passes(init, g.passes@, 0),
        barriers_of_decls(stp, g.exports@),
        slot,
    );
    lemma_decl_schedule_on_slot(stp, g.exports@, slot);
    lemma_decls_on_concat(all_decls_of(g.passes@), g.exports@, slot);
    lemma_slot_transitions_concat(
        slot,
        init[slot as int],
        decls_on(all_decls_of(g.passes@), slot),
        decls_on(g.exports@, slot),
    );
}

/// The import/export round trip. A resource imported at access `a`, written
/// once under a differing access `w` by a pass, and exported at `w`, sees
/// exactly one transition, from `a` to `w`, and the frame leaves it at `w`
/// for the next frame's import.
pub proof fn lemma_import_export_round_trip(g: RenderGraph, slot: usize, a: AccessType, w: AccessType)
    requires
        g.graph_wf(),
        slot < g.resources@.len(),
        g.initial_state()[slot as int] == a,
        decls_on(g.all_decls(), slot) == seq![w, w],
        a != w,
    ensures
        barriers_on(g.spec_commands(), slot) == seq![RecordedCommand::Barrier {
            slot,
            prev_access: a,
            next_access: w,
        }],
        g.spec_final_state()[slot as int] == w,
{
    lemma_graph_schedule_per_resource(g, slot);
    let ww = seq![w, w];
    assert(ww.first() == w);
    assert(ww.drop_first() =~= seq![w]);
    assert(seq![w].first() == w);
    assert(seq![w].drop_first() =~= Seq::<AccessType>::empty());
    assert(slot_transitions(slot, w, Seq::<AccessType>::empty()) == Seq::<
        RecordedCommand,
    >::empty());
    assert(slot_transitions(slot, w, seq![w]) == Seq::<RecordedCommand>::empty());
    assert(slot_transitions(slot, a, ww) =~= seq![RecordedCommand::Barrier {
        slot,
        prev_access: a,
        next_access: w,
    }]);
    assert(last_access(w, Seq::<AccessType>::empty()) == w);
    assert(last_access(w, seq![w]) == w);
    assert(last_access(a, ww) == w);
}

/// Projection of a pass schedule onto one slot: pass brackets contribute
/// no barrier, so only the declaration-driven transitions remain.
pub proof fn lemma_commands_projection(st: Seq<AccessType>, ps: Seq<Pass>, idx: int, slot: usize)
    requires
        slot < st.len(),
        forall|i: int| 0 <= i < ps.len() ==> pass_in_bounds(#[trigger] ps[i], st.len()),
    ensures
        state_after_passes(st, ps).len() == st.len(),
        state_after_passes(st, ps)[slot as int] == last_access(
            st[slot as int],
            decls_on(all_decls_of(ps), slot),
        ),
        barriers_on(commands_of_passes(st, ps, idx), slot) == slot_transitions(
            slot,
            st[slot as int],
            decls_on(all_decls_of(ps), slot),
        ),
    decreases ps.len(),
{
    lemma_state_after_passes_len(st, ps);
    if ps.len() > 0 {
        let p = ps.first();
        assert(ps[0] == p);
        let d0 = decls_of_pass(p);
        let st2 = state_after_decls(st, d0);
        lemma_state_len(st, d0);
        lemma_decl_schedule_on_slot(st, d0, slot);
        assert(forall|i: int| 0 <= i < ps.drop_first().len() ==> ps.drop_first()[i] == ps[i + 1]);
        lemma_commands_projection(st2, ps.drop_first(), idx + 1, slot);
        lemma_barriers_on_concat(
            barriers_of_decls(st, d0) + bracket_of_pass(p, idx),
            commands_of_passes(st2, ps.drop_first(), idx + 1),
            slot,
        );
        lemma_barriers_on_concat(barriers_of_decls(st, d0), bracket_of_pass(p, idx), slot);
        lemma_barriers_on_barrier_free(bracket_of_pass(p, idx), slot);
        assert(barriers_on(barriers_of_decls(st, d0), slot) + Seq::<RecordedCommand>::empty()
            =~= barriers_on(barriers_of_decls(st, d0), slot));
        lemma_decls_on_concat(d0, all_decls_of(ps.drop_first()), slot);
        lemma_slot_transitions_concat(
            slot,
            st[slot as int],
            decls_on(d0, slot),
            decls_on(all_decls_of(ps.drop_first()), slot),
        );
    }
}

} // verus!
