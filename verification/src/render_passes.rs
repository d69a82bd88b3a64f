//! Ready-made graph passes: image creation, clears, a blur dispatch and an
//! indexed-mesh raster pass. Each one declares its resource uses against
//! the graph and leaves its work as a deferred body for the device
//! boundary; clear values travel as raw bit patterns.

use vstd::prelude::*;
use crate::access::AccessType;
use crate::resource::{ImageDesc, ResourceDesc, ResourceKind, Buffer};
use crate::graph::{RenderGraph, Handle, Pass, PassBody, PipelineDesc, DrawIndexed};
use crate::schedule::PassRef;

verus! {

/// Allocate a fresh image in the graph. The pass builder it opens is
/// dropped without a body on purpose: creation alone schedules no work.
pub fn create_image(rg: &mut RenderGraph, desc: ImageDesc) -> (h: Handle)
    ensures
        final(rg).resources@.len() == old(rg).resources@.len() + 1,
        final(rg).resources@[h.slot as int].desc == ResourceDesc::Image(desc),
        final(rg).resources@[h.slot as int].initial_access == AccessType::Nothing,
        final(rg).resources@.subrange(0, old(rg).resources@.len() as int)
            == old(rg).resources@,
        final(rg).passes@ == old(rg).passes@,
        final(rg).pipelines@ == old(rg).pipelines@,
        final(rg).exports@ == old(rg).exports@,
        h.slot == old(rg).resources@.len(),
        h.kind == ResourceKind::Image,
        final(rg).spec_valid_handle(h),
        old(rg).graph_wf() ==> final(rg).graph_wf(),
        forall|g: Handle| old(rg).spec_valid_handle(g) ==> final(rg).spec_valid_handle(g),
{
    let pass = rg.add_pass();
    let h = pass.create(rg, &ResourceDesc::Image(desc));
    proof {
        assert(rg.resources@.subrange(0, old(rg).resources@.len() as int)
            =~= old(rg).resources@);
    }
    h
}

/// What the one pass a clear or blur adds must look like.
pub open spec fn single_pass_added(
    pre: RenderGraph,
    post: RenderGraph,
    reads: Seq<PassRef>,
    writes: Seq<PassRef>,
) -> bool {
    &&& post.passes@.len() == pre.passes@.len() + 1
    &&& forall|i: int| 0 <= i < pre.passes@.len() ==> post.passes@[i] == pre.passes@[i]
    &&& post.passes@.last().reads@ == reads
    &&& post.passes@.last().writes@ == writes
    &&& post.passes@.last().rasters@.len() == 0
}

/// Clear a depth image to depth zero, stencil zero, through a transfer
/// write.
pub fn clear_depth(rg: &mut RenderGraph, img: &mut Handle)
    requires
        old(rg).graph_wf(),
        old(rg).spec_valid_handle(*old(img)),
    ensures
        *final(img) == *old(img),
        final(rg).graph_wf(),
        final(rg).resources@ == old(rg).resources@,
        final(rg).pipelines@ == old(rg).pipelines@,
        final(rg).exports@ == old(rg).exports@,
        single_pass_added(
            *old(rg),
            *final(rg),
            Seq::<PassRef>::empty(),
            seq![PassRef { slot: old(img).slot, access: AccessType::TransferWrite }],
        ),
        final(rg).passes@.last().body matches PassBody::ClearDepth { depth_bits, stencil }
            && depth_bits == 0 && stencil == 0,
{
    let mut pass = rg.add_pass();
    let output_ref = pass.write(img, AccessType::TransferWrite);
    proof {
        assert(pass.reads@ + pass.writes@ + pass.rasters@ =~= seq![output_ref]);
    }
    pass.render(rg, PassBody::ClearDepth { depth_bits: 0, stencil: 0 });
}

/// Clear a color image through a transfer write. `value_bits` carries the
/// four channel values as raw bit patterns the device reinterprets.
pub fn clear_color(rg: &mut RenderGraph, img: &mut Handle, value_bits: [u32; 4])
    requires
        old(rg).graph_wf(),
        old(rg).spec_valid_handle(*old(img)),
    ensures
        *final(img) == *old(img),
        final(rg).graph_wf(),
        final(rg).resources@ == old(rg).resources@,
        final(rg).pipelines@ == old(rg).pipelines@,
        final(rg).exports@ == old(rg).exports@,
        single_pass_added(
            *old(rg),
            *final(rg),
            Seq::<PassRef>::empty(),
            seq![PassRef { slot: old(img).slot, access: AccessType::TransferWrite }],
        ),
        final(rg).passes@.last().body matches PassBody::ClearColor { value_bits: v } && v@
            == value_bits@,
{
    let mut pass = rg.add_pass();
    let output_ref = pass.write(img, AccessType::TransferWrite);
    proof {
        assert(pass.reads@ + pass.writes@ + pass.rasters@ =~= seq![output_ref]);
    }
    pass.render(rg, PassBody::ClearColor { value_bits });
}

/// Blur an image: one compute pass that reads the input and writes a fresh
/// image of the same shape, which is returned.
pub fn blur(rg: &mut RenderGraph, input: &Handle) -> (out: Handle)
    requires
        old(rg).graph_wf(),
        old(rg).spec_valid_handle(*input),
        input.kind == ResourceKind::Image,
    ensures
        final(rg).graph_wf(),
        final(rg).spec_valid_handle(out),
        out.kind == ResourceKind::Image,
        out.slot == old(rg).resources@.len(),
        // the output has the input's shape and starts uninitialized
        final(rg).resources@.len() == old(rg).resources@.len() + 1,
        final(rg).resources@[out.slot as int].desc == old(rg).resources@[input.slot as int].desc,
        final(rg).resources@[out.slot as int].initial_access == AccessType::Nothing,
        final(rg).resources@.subrange(0, old(rg).resources@.len() as int)
            == old(rg).resources@,
        final(rg).exports@ == old(rg).exports@,
        single_pass_added(
            *old(rg),
            *final(rg),
            seq![PassRef { slot: input.slot, access: AccessType::ComputeShaderRead }],
            seq![PassRef { slot: out.slot, access: AccessType::ComputeShaderWrite }],
        ),
        // the deferred body binds exactly the two refs, dispatches over the
        // input's extent, and names a freshly registered blur pipeline
        final(rg).passes@.last().body matches PassBody::Compute {
            pipeline,
            dispatch_x,
            dispatch_y,
            dispatch_z,
            bindings,
        } && pipeline.id == old(rg).pipelines@.len() && bindings@ == seq![
            PassRef { slot: input.slot, access: AccessType::ComputeShaderRead },
            PassRef { slot: out.slot, access: AccessType::ComputeShaderWrite },
        ] && (old(rg).resources@[input.slot as int].desc matches ResourceDesc::Image(d)
            ==> dispatch_x == d.extent_x && dispatch_y == d.extent_y && dispatch_z == d.extent_z),
        final(rg).pipelines@.len() == old(rg).pipelines@.len() + 1,
        forall|i: int|
            0 <= i < old(rg).pipelines@.len() ==> final(rg).pipelines@[i] == old(rg).pipelines@[i],
        final(rg).pipelines@.last() matches PipelineDesc::Compute { path } && path@
            == "/assets/shaders/blur.hlsl"@,
{
    let mut pass = rg.add_pass();
    let pipeline = pass.register_compute_pipeline(rg, "/assets/shaders/blur.hlsl");
    let input_ref = pass.read(input, AccessType::ComputeShaderRead);
    let desc = rg.image_desc(input);
    let mut output = pass.create(rg, &ResourceDesc::Image(desc));
    let output_ref = pass.write(&mut output, AccessType::ComputeShaderWrite);
    let mut bindings: Vec<PassRef> = Vec::new();
    bindings.push(input_ref);
    bindings.push(output_ref);
    proof {
        assert(pass.reads@ + pass.writes@ + pass.rasters@ =~= seq![input_ref, output_ref]);
        assert(rg.resources@.subrange(0, old(rg).resources@.len() as int)
            =~= old(rg).resources@);
        assert(bindings@ =~= seq![input_ref, output_ref]);
    }
    pass.render(
        rg,
        PassBody::Compute {
            pipeline,
            dispatch_x: desc.extent_x,
            dispatch_y: desc.extent_y,
            dispatch_z: desc.extent_z,
            bindings,
        },
    );
    output
}

/// One mesh already resident on the device: its index buffer and how many
/// indices to draw.
#[derive(Clone, Copy, PartialEq, Eq, Structural, Debug)]
pub struct UploadedTriMesh {
    pub index_buffer: Buffer,
    pub index_buffer_id: u64,
    pub index_count: u32,
}

/// Everything a mesh raster pass reads besides its attachments.
pub struct RasterMeshesData<'a> {
    pub meshes: &'a [UploadedTriMesh],
    pub mesh_buffer: &'a Handle,
    pub vertex_buffer: &'a Handle,
    pub bindless_descriptor_set: u64,
}

/// Rasterize a set of uploaded meshes into a color and a depth attachment:
/// one raster pass reading the mesh and vertex buffers and drawing each
/// mesh indexed, bracketed by a render pass over both attachments.
pub fn raster_meshes(
    rg: &mut RenderGraph,
    depth_img: &mut Handle,
    color_img: &mut Handle,
    mesh_data: RasterMeshesData<'_>,
)
    requires
        old(rg).graph_wf(),
        old(rg).spec_valid_handle(*old(depth_img)),
        old(rg).spec_valid_handle(*old(color_img)),
        old(rg).spec_valid_handle(*mesh_data.mesh_buffer),
        old(rg).spec_valid_handle(*mesh_data.vertex_buffer),
    ensures
        *final(depth_img) == *old(depth_img),
        *final(color_img) == *old(color_img),
        final(rg).graph_wf(),
        final(rg).resources@ == old(rg).resources@,
        final(rg).exports@ == old(rg).exports@,
        final(rg).passes@.len() == old(rg).passes@.len() + 1,
        forall|i: int|
            0 <= i < old(rg).passes@.len() ==> final(rg).passes@[i] == old(rg).passes@[i],
        final(rg).passes@.last().reads@ == seq![
            PassRef { slot: mesh_data.mesh_buffer.slot, access: AccessType::VertexShaderRead },
            PassRef { slot: mesh_data.vertex_buffer.slot, access: AccessType::VertexShaderRead },
        ],
        final(rg).passes@.last().writes@.len() == 0,
        final(rg).passes@.last().rasters@ == seq![
            PassRef {
                slot: old(depth_img).slot,
                access: AccessType::DepthStencilAttachmentWrite,
            },
            PassRef { slot: old(color_img).slot, access: AccessType::ColorAttachmentWrite },
        ],
        // the deferred body binds the two vertex-stage buffers, carries one
        // indexed draw per mesh, the bindless set, and a freshly registered
        // raster pipeline
        final(rg).passes@.last().body matches PassBody::Raster {
            pipeline,
            bindings,
            draws,
            bindless_descriptor_set,
        } && pipeline.id == old(rg).pipelines@.len() && bindings@ == seq![
            PassRef { slot: mesh_data.mesh_buffer.slot, access: AccessType::VertexShaderRead },
            PassRef { slot: mesh_data.vertex_buffer.slot, access: AccessType::VertexShaderRead },
        ] && draws@.len() == mesh_data.meshes@.len() && (forall|i: int|
            0 <= i < draws@.len() ==> (#[trigger] draws@[i]) == (DrawIndexed {
                index_buffer_id: mesh_data.meshes@[i].index_buffer_id,
                index_count: mesh_data.meshes@[i].index_count,
            })) && bindless_descriptor_set == mesh_data.bindless_descriptor_set,
        final(rg).pipelines@.len() == old(rg).pipelines@.len() + 1,
        forall|i: int|
            0 <= i < old(rg).pipelines@.len() ==> final(rg).pipelines@[i] == old(rg).pipelines@[i],
        final(rg).pipelines@.last() matches PipelineDesc::Raster {
            vertex_path,
            pixel_path,
            face_cull,
        } && vertex_path@ == "/assets/shaders/raster_simple_vs.hlsl"@ && pixel_path@
            == "/assets/shaders/raster_simple_ps.hlsl"@ && face_cull == true,
{
    let mut pass = rg.add_pass();
    let pipeline = pass.register_raster_pipeline(
        rg,
        "/assets/shaders/raster_simple_vs.hlsl",
        "/assets/shaders/raster_simple_ps.hlsl",
        true,
    );

    let mut draws: Vec<DrawIndexed> = Vec::new();
    let mut mi: usize = 0;
    while mi < mesh_data.meshes.len()
        invariant
            mi <= mesh_data.meshes@.len(),
            draws@.len() == mi,
            forall|i: int|
                0 <= i < mi ==> (#[trigger] draws@[i]) == (DrawIndexed {
                    index_buffer_id: mesh_data.meshes@[i].index_buffer_id,
                    index_count: mesh_data.meshes@[i].index_count,
                }),
        decreases mesh_data.meshes@.len() - mi,
    {
        let m = mesh_data.meshes[mi];
        draws.push(DrawIndexed { index_buffer_id: m.index_buffer_id, index_count: m.index_count });
        mi += 1;
    }

    let depth_ref = pass.raster(depth_img, AccessType::DepthStencilAttachmentWrite);
    let color_ref = pass.raster(color_img, AccessType::ColorAttachmentWrite);
    let meshes_ref = pass.read(mesh_data.mesh_buffer, AccessType::VertexShaderRead);
    let vb_ref = pass.read(mesh_data.vertex_buffer, AccessType::VertexShaderRead);

    let mut bindings: Vec<PassRef> = Vec::new();
    bindings.push(meshes_ref);
    bindings.push(vb_ref);

    proof {
        assert(pass.reads@ + pass.writes@ + pass.rasters@ =~= seq![
            meshes_ref,
            vb_ref,
            depth_ref,
            color_ref,
        ]);
        assert(bindings@ =~= seq![meshes_ref, vb_ref]);
    }
    pass.render(
        rg,
        PassBody::Raster {
            pipeline,
            bindings,
            draws,
            bindless_descriptor_set: mesh_data.bindless_descriptor_set,
        },
    );
}

} // verus!
