//! Renderer-side conveniences over the graph: the gbuffer/depth pair with
//! memoized half-resolution views, and the ping-pong helper that swaps a
//! pair of temporal keys between the output and the history role each frame.

use vstd::prelude::*;
use vstd::string::StringExecFns;
use crate::access::AccessType;
use crate::resource::{ImageDesc, ImageFormat, ResourceDesc, ResourceKind, spec_half_res};
use crate::graph::{RenderGraph, Handle, PassBody, PipelineDesc};
use crate::schedule::PassRef;
use crate::render_passes::single_pass_added;
use crate::temporal::{TemporalRenderGraph, TemporalResourceKey, TemporalError, lemma_frame_resolves_preserved, lemma_key_conflict_preserved, lemma_distinct_keys_distinct_handles};

verus! {

/// What one half-resolution extraction adds to a graph: a fresh image slot
/// of the source's shape halved, in the given format, starting
/// uninitialized, plus one compute pass that reads the source, writes the
/// fresh image, binds exactly those two refs, dispatches over the halved
/// extent, and uses a pipeline freshly registered under `shader`.
pub open spec fn half_res_extraction_added(
    pre: RenderGraph,
    post: RenderGraph,
    source: Handle,
    out: Handle,
    format: ImageFormat,
    shader: Seq<char>,
) -> bool {
    &&& out.slot == pre.resources@.len()
    &&& out.kind == ResourceKind::Image
    &&& post.resources@.len() == pre.resources@.len() + 1
    &&& post.resources@.subrange(0, pre.resources@.len() as int) == pre.resources@
    &&& post.resources@[out.slot as int].initial_access == AccessType::Nothing
    &&& (pre.resources@[source.slot as int].desc matches ResourceDesc::Image(d)
        ==> post.resources@[out.slot as int].desc == ResourceDesc::Image(
        ImageDesc { format, ..spec_half_res(d) },
    ))
    &&& post.exports@ == pre.exports@
    &&& single_pass_added(
        pre,
        post,
        seq![PassRef { slot: source.slot, access: AccessType::ComputeShaderRead }],
        seq![PassRef { slot: out.slot, access: AccessType::ComputeShaderWrite }],
    )
    &&& post.passes@.last().body matches PassBody::Compute {
        pipeline,
        dispatch_x,
        dispatch_y,
        dispatch_z,
        bindings,
    } && pipeline.id == pre.pipelines@.len() && bindings@ == seq![
        PassRef { slot: source.slot, access: AccessType::ComputeShaderRead },
        PassRef { slot: out.slot, access: AccessType::ComputeShaderWrite },
    ] && (pre.resources@[source.slot as int].desc matches ResourceDesc::Image(d) ==> dispatch_x
        == spec_half_res(d).extent_x && dispatch_y == spec_half_res(d).extent_y && dispatch_z
        == spec_half_res(d).extent_z)
    &&& post.pipelines@.len() == pre.pipelines@.len() + 1
    &&& (forall|i: int| 0 <= i < pre.pipelines@.len() ==> post.pipelines@[i] == pre.pipelines@[i])
    &&& post.pipelines@.last() matches PipelineDesc::Compute { path } && path@ == shader
}

/// Downsample an image to half resolution with one compute pass; the
/// result is a fresh image of the given format.
fn extract_half_res(rg: &mut RenderGraph, input: &Handle, format: ImageFormat, shader: &str) -> (out:
    Handle)
    requires
        old(rg).graph_wf(),
        old(rg).spec_valid_handle(*input),
        input.kind == ResourceKind::Image,
    ensures
        final(rg).graph_wf(),
        final(rg).spec_valid_handle(out),
        half_res_extraction_added(*old(rg), *final(rg), *input, out, format, shader@),
        forall|g: Handle| old(rg).spec_valid_handle(g) ==> final(rg).spec_valid_handle(g),
{
    let mut pass = rg.add_pass();
    let pipeline = pass.register_compute_pipeline(rg, shader);
    let input_ref = pass.read(input, AccessType::ComputeShaderRead);
    let desc = rg.image_desc(input);
    let half = desc.half_res().with_format(format);
    let mut output = pass.create(rg, &ResourceDesc::Image(half));
    let output_ref = pass.write(&mut output, AccessType::ComputeShaderWrite);
    let mut bindings: Vec<PassRef> = Vec::new();
    bindings.push(input_ref);
    bindings.push(output_ref);
    proof {
        assert(pass.reads@ + pass.writes@ + pass.rasters@ =~= seq![input_ref, output_ref]);
        assert(rg.resources@.subrange(0, old(rg).resources@.len() as int)
            =~= old(rg).resources@);
        assert(bindings@ =~= seq![input_ref, output_ref]);
    }
    pass.render(
        rg,
        PassBody::Compute {
            pipeline,
            dispatch_x: half.extent_x,
            dispatch_y: half.extent_y,
            dispatch_z: half.extent_z,
            bindings,
        },
    );
    proof {
        assert(forall|i: int|
            0 <= i < old(rg).passes@.len() ==> rg.passes@[i] == old(rg).passes@[i]);
    }
    output
}

/// Extract the view-space normals of the gbuffer at half resolution.
pub fn extract_half_res_gbuffer_view_normal_rgba8(rg: &mut RenderGraph, gbuffer: &Handle) -> (out:
    Handle)
    requires
        old(rg).graph_wf(),
        old(rg).spec_valid_handle(*gbuffer),
        gbuffer.kind == ResourceKind::Image,
    ensures
        final(rg).graph_wf(),
        final(rg).spec_valid_handle(out),
        half_res_extraction_added(
            *old(rg),
            *final(rg),
            *gbuffer,
            out,
            ImageFormat::Rgba8Unorm,
            "/assets/shaders/extract_half_res_gbuffer_view_normal_rgba8.hlsl"@,
        ),
        forall|g: Handle| old(rg).spec_valid_handle(g) ==> final(rg).spec_valid_handle(g),
{
    extract_half_res(rg, gbuffer, ImageFormat::Rgba8Unorm, "/assets/shaders/extract_half_res_gbuffer_view_normal_rgba8.hlsl")
}

/// Extract the depth buffer at half resolution.
pub fn extract_half_res_depth(rg: &mut RenderGraph, depth: &Handle) -> (out: Handle)
    requires
        old(rg).graph_wf(),
        old(rg).spec_valid_handle(*depth),
        depth.kind == ResourceKind::Image,
    ensures
        final(rg).graph_wf(),
        final(rg).spec_valid_handle(out),
        half_res_extraction_added(
            *old(rg),
            *final(rg),
            *depth,
            out,
            ImageFormat::R32Sfloat,
            "/assets/shaders/extract_half_res_depth.hlsl"@,
        ),
        forall|g: Handle| old(rg).spec_valid_handle(g) ==> final(rg).spec_valid_handle(g),
{
    extract_half_res(rg, depth, ImageFormat::R32Sfloat, "/assets/shaders/extract_half_res_depth.hlsl")
}

/// The current frame's gbuffer and depth, with half-resolution views
/// computed on first request and memoized for the rest of the frame: an
/// explicit cache, populated on the first miss and read thereafter.
pub struct GbufferDepth {
    pub gbuffer: Handle,
    pub depth: Handle,
    pub half_view_normal: Option<Handle>,
    pub half_depth: Option<Handle>,
}

impl GbufferDepth {
    /// Both handles refer to live image slots, as do the cached views.
    pub open spec fn wf(self, rg: RenderGraph) -> bool {
        &&& rg.spec_valid_handle(self.gbuffer)
        &&& self.gbuffer.kind == ResourceKind::Image
        &&& rg.spec_valid_handle(self.depth)
        &&& self.depth.kind == ResourceKind::Image
        &&& self.half_view_normal matches Some(h) ==> rg.spec_valid_handle(h) && h.kind
            == ResourceKind::Image
        &&& self.half_depth matches Some(h) ==> rg.spec_valid_handle(h) && h.kind
            == ResourceKind::Image
    }

    /// The cached half-resolution view-normal handle, if one was computed.
    pub open spec fn cached_half_view_normal(self) -> Option<Handle> {
        self.half_view_normal
    }

    /// The cached half-resolution depth handle, if one was computed.
    pub open spec fn cached_half_depth(self) -> Option<Handle> {
        self.half_depth
    }

    pub fn new(gbuffer: Handle, depth: Handle) -> (r: GbufferDepth)
        ensures
            r.gbuffer == gbuffer,
            r.depth == depth,
            r.cached_half_view_normal() is None,
            r.cached_half_depth() is None,
    {
        GbufferDepth { gbuffer, depth, half_view_normal: None, half_depth: None }
    }

    /// The half-resolution view-normal image: the first request of a frame
    /// appends exactly one extraction pass reading the gbuffer into a fresh
    /// half-resolution image and caches its handle; every later request
    /// returns that handle from the cache with the graph untouched.
    pub fn half_view_normal(&mut self, rg: &mut RenderGraph) -> (h: Handle)
        requires
            old(rg).graph_wf(),
            old(self).wf(*old(rg)),
        ensures
            final(rg).graph_wf(),
            final(self).wf(*final(rg)),
            final(self).cached_half_view_normal() == Some(h),
            final(rg).spec_valid_handle(h),
            final(self).gbuffer == old(self).gbuffer,
            final(self).depth == old(self).depth,
            final(self).cached_half_depth() == old(self).cached_half_depth(),
            old(self).cached_half_view_normal() matches Some(c) ==> h == c && *final(rg) == *old(
                rg,
            ),
            old(self).cached_half_view_normal() is None ==> half_res_extraction_added(
                *old(rg),
                *final(rg),
                old(self).gbuffer,
                h,
                ImageFormat::Rgba8Unorm,
                "/assets/shaders/extract_half_res_gbuffer_view_normal_rgba8.hlsl"@,
            ),
    {
        match self.half_view_normal {
            Some(h) => h,
            None => {
                let h = extract_half_res_gbuffer_view_normal_rgba8(rg, &self.gbuffer);
                self.half_view_normal = Some(h);
                h
            },
        }
    }

    /// The half-resolution depth image, memoized the same way: the first
    /// request appends the depth extraction pass, later requests return
    /// the cached handle without touching the graph.
    pub fn half_depth(&mut self, rg: &mut RenderGraph) -> (h: Handle)
        requires
            old(rg).graph_wf(),
            old(self).wf(*old(rg)),
        ensures
            final(rg).graph_wf(),
            final(self).wf(*final(rg)),
            final(self).cached_half_depth() == Some(h),
            final(rg).spec_valid_handle(h),
            final(self).gbuffer == old(self).gbuffer,
            final(self).depth == old(self).depth,
            final(self).cached_half_view_normal() == old(self).cached_half_view_normal(),
            old(self).cached_half_depth() matches Some(c) ==> h == c && *final(rg) == *old(rg),
            old(self).cached_half_depth() is None ==> half_res_extraction_added(
                *old(rg),
                *final(rg),
                old(self).depth,
                h,
                ImageFormat::R32Sfloat,
                "/assets/shaders/extract_half_res_depth.hlsl"@,
            ),
    {
        match self.half_depth {
            Some(h) => h,
            None => {
                let h = extract_half_res_depth(rg, &self.depth);
                self.half_depth = Some(h);
                h
            },
        }
    }
}

/// A pair of temporal keys whose roles swap every frame: what this frame
/// writes under the output key, the next frame reads under the history key,
/// with no copy — only the labels move.
pub struct PingPongTemporalResource {
    pub output_tex: TemporalResourceKey,
    pub history_tex: TemporalResourceKey,
}

impl PingPongTemporalResource {
    /// The two keys derive from the name and never collide.
    pub fn new(name: &str) -> (r: PingPongTemporalResource)
        ensures
            r.output_tex@ == name@ + ":0"@,
            r.history_tex@ == name@ + ":1"@,
            r.output_tex@ != r.history_tex@,
    {
        let output_tex = TemporalResourceKey { text: String::from_str(name).concat(":0") };
        let history_tex = TemporalResourceKey { text: String::from_str(name).concat(":1") };
        proof {
            reveal_strlit(":0");
            reveal_strlit(":1");
            assert((name@ + ":0"@)[name@.len() as int + 1] == '0');
            assert((name@ + ":1"@)[name@.len() as int + 1] == '1');
        }
        PingPongTemporalResource { output_tex, history_tex }
    }

    /// Resolve both keys for this frame, then swap their roles for the
    /// next call. The request fails, changing nothing, exactly when one of
    /// the keys is already bound to a different shape. On success the two
    /// handles are distinct resources (the pair never self-aliases), keys
    /// already resolved this frame hand back the same handles, and when
    /// both were already resolved nothing at all changes but the role swap.
    pub fn get_output_and_history(&mut self, rg: &mut TemporalRenderGraph, desc: ImageDesc) -> (res:
        Result<(Handle, Handle), TemporalError>)
        requires
            old(rg).wf(),
            old(self).output_tex@ != old(self).history_tex@,
        ensures
            final(rg).wf(),
            // success is owed: an error comes exactly from a shape conflict
            (res is Err) <==> (old(rg).key_conflict(old(self).output_tex@, desc) || old(
                rg,
            ).key_conflict(old(self).history_tex@, desc)),
            res matches Ok(p) ==> {
                // the roles swapped for the next call
                &&& final(self).output_tex@ == old(self).history_tex@
                &&& final(self).history_tex@ == old(self).output_tex@
                // each handle is this frame's binding of its key
                &&& final(rg).frame_resolves(old(self).output_tex@, desc, p.0)
                &&& final(rg).frame_resolves(old(self).history_tex@, desc, p.1)
                // the pair never aliases one physical resource
                &&& p.0 != p.1
                // keys already resolved this frame hand back the same handles
                &&& (forall|h: Handle|
                    old(rg).frame_resolves(old(self).output_tex@, desc, h) ==> p.0 == h)
                &&& (forall|h: Handle|
                    old(rg).frame_resolves(old(self).history_tex@, desc, h) ==> p.1 == h)
            },
            // both keys already resolved with this shape: the same two
            // handles come back and the graph and table stay as they were
            forall|ho: Handle, hh: Handle|
                old(rg).frame_resolves(old(self).output_tex@, desc, ho) && old(rg).frame_resolves(
                    old(self).history_tex@,
                    desc,
                    hh,
                ) ==> res == Ok::<(Handle, Handle), TemporalError>((ho, hh)) && *final(rg) == *old(
                    rg,
                ),
            // on failure nothing moves: the keys keep their roles and every
            // table entry keeps its key, shape and access
            res matches Err(e) ==> {
                &&& e == TemporalError::DescMismatch
                &&& *final(self) == *old(self)
                &&& final(rg).table.entries@.len() >= old(rg).table.entries@.len()
                &&& forall|j: int|
                    0 <= j < old(rg).table.entries@.len()
                        ==> (#[trigger] final(rg).table.entries@[j]).key@
                            == old(rg).table.entries@[j].key@
                        && final(rg).table.entries@[j].desc == old(rg).table.entries@[j].desc
                        && final(rg).table.entries@[j].access == old(rg).table.entries@[j].access
            },
    {
        let ghost k0 = self.output_tex@;
        let ghost k1 = self.history_tex@;
        let output = match rg.get_or_create_temporal(&self.output_tex, desc) {
            Ok(h) => h,
            Err(e) => {
                proof {
                    assert forall|ho: Handle, hh: Handle|
                        old(rg).frame_resolves(k0, desc, ho) && old(rg).frame_resolves(
                            k1,
                            desc,
                            hh,
                        ) implies false by {}
                }
                return Err(e);
            },
        };
        let ghost mid = *rg;
        let history = match rg.get_or_create_temporal(&self.history_tex, desc) {
            Ok(h) => h,
            Err(e) => {
                proof {
                    lemma_new_entries_have_desc(*old(rg), mid, k0, desc);
                    lemma_key_conflict_preserved(*old(rg), mid, k1, desc);
                    assert forall|ho: Handle, hh: Handle|
                        old(rg).frame_resolves(k0, desc, ho) && old(rg).frame_resolves(
                            k1,
                            desc,
                            hh,
                        ) implies false by {
                        assert(mid == *old(rg));
                        assert(mid.frame_resolves(k1, desc, hh));
                    }
                }
                return Err(e);
            },
        };
        proof {
            lemma_new_entries_have_desc(*old(rg), mid, k0, desc);
            lemma_key_conflict_preserved(*old(rg), mid, k1, desc);
            lemma_frame_resolves_preserved(mid, *rg, k0, desc, output);
            assert forall|h: Handle|
                old(rg).frame_resolves(k1, desc, h) implies history == h by {
                lemma_frame_resolves_preserved(*old(rg), mid, k1, desc, h);
            }
            lemma_distinct_keys_distinct_handles(*rg, k0, k1, desc, desc, output, history);
            assert forall|ho: Handle, hh: Handle|
                old(rg).frame_resolves(k0, desc, ho) && old(rg).frame_resolves(
                    k1,
                    desc,
                    hh,
                ) implies output == ho && history == hh && *rg == *old(rg) by {
                assert(mid == *old(rg));
                assert(mid.frame_resolves(k1, desc, hh));
            }
        }
        core::mem::swap(&mut self.output_tex, &mut self.history_tex);
        Ok((output, history))
    }
}

/// Every table entry a request for `desc` may have appended carries `desc`.
proof fn lemma_new_entries_have_desc(
    pre: TemporalRenderGraph,
    post: TemporalRenderGraph,
    k: Seq<char>,
    desc: ImageDesc,
)
    requires
        post.table.entries@.len() <= pre.table.entries@.len() + 1,
        post.table.entries@.len() == pre.table.entries@.len() + 1
            ==> post.table.entries@.last().desc == desc,
    ensures
        forall|j: int|
            pre.table.entries@.len() <= j < post.table.entries@.len()
                ==> (#[trigger] post.table.entries@[j]).desc == desc,
{
}

} // verus!
