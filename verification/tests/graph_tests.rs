use render_graph::access::AccessType;
use render_graph::graph::{RenderGraph, PassBody};
use render_graph::schedule::RecordedCommand;
use render_graph::resource::{ImageDesc, ImageFormat, ResourceDesc, BufferDesc, Buffer};
use render_graph::render_passes::{create_image, clear_color, clear_depth, blur, raster_meshes, UploadedTriMesh, RasterMeshesData};

fn rgba8_64() -> ImageDesc {
    ImageDesc::new_2d(64, 64, ImageFormat::Rgba8Unorm, 0)
}

fn barriers_for_slot(cmds: &[RecordedCommand], slot: usize) -> Vec<(AccessType, AccessType)> {
    let mut out = Vec::new();
    for c in cmds {
        if let RecordedCommand::Barrier { slot: s, prev_access, next_access } = c {
            if *s == slot {
                out.push((*prev_access, *next_access));
            }
        }
    }
    out
}

#[test]
fn clear_then_compute_read_emits_two_barriers() {
    let mut rg = RenderGraph::new();
    let mut img = create_image(&mut rg, rgba8_64());
    clear_color(&mut rg, &mut img, [0, 0, 0, 0]);
    let _blurred = blur(&mut rg, &img);
    let (cmds, state) = rg.record();

    let b = barriers_for_slot(&cmds, img.slot);
    assert_eq!(
        b,
        vec![
            (AccessType::Nothing, AccessType::TransferWrite),
            (AccessType::TransferWrite, AccessType::ComputeShaderRead),
        ]
    );
    assert_eq!(state[img.slot], AccessType::ComputeShaderRead);
}

#[test]
fn read_after_read_is_barrier_free() {
    let mut rg = RenderGraph::new();
    let mut img = create_image(&mut rg, rgba8_64());
    clear_color(&mut rg, &mut img, [0, 0, 0, 0]);
    let _first = blur(&mut rg, &img);
    let _second = blur(&mut rg, &img);
    let (cmds, _state) = rg.record();

    let b = barriers_for_slot(&cmds, img.slot);
    // one for the clear, one for the first read; the second read reuses it
    assert_eq!(b.len(), 2);
}

#[test]
fn pass_without_render_contributes_nothing() {
    let mut rg = RenderGraph::new();
    let mut img = create_image(&mut rg, rgba8_64());
    clear_color(&mut rg, &mut img, [0, 0, 0, 0]);
    {
        let mut pass = rg.add_pass();
        let _r = pass.read(&img, AccessType::ComputeShaderRead);
        // dropped without render: no commands, no access change
    }
    let (cmds, state) = rg.record();
    assert_eq!(barriers_for_slot(&cmds, img.slot).len(), 1);
    assert_eq!(state[img.slot], AccessType::TransferWrite);
    let executes = cmds
        .iter()
        .filter(|c| matches!(c, RecordedCommand::ExecutePass { .. }))
        .count();
    assert_eq!(executes, 1);
}

#[test]
fn import_export_round_trip_has_one_transition() {
    let mut rg = RenderGraph::new();
    let mut img = rg.import(
        &ResourceDesc::Image(rgba8_64()),
        AccessType::AnyShaderReadSampled,
    );
    clear_color(&mut rg, &mut img, [1, 2, 3, 4]);
    rg.export(img, AccessType::TransferWrite);
    let (cmds, state) = rg.record();

    let b = barriers_for_slot(&cmds, img.slot);
    assert_eq!(
        b,
        vec![(AccessType::AnyShaderReadSampled, AccessType::TransferWrite)]
    );
    assert_eq!(state[img.slot], AccessType::TransferWrite);
}

#[test]
fn clear_depth_records_transfer_write_pass() {
    let mut rg = RenderGraph::new();
    let mut depth = create_image(
        &mut rg,
        ImageDesc::new_2d(32, 32, ImageFormat::D24UnormS8Uint, 0),
    );
    clear_depth(&mut rg, &mut depth);
    let (cmds, state) = rg.record();
    assert_eq!(
        barriers_for_slot(&cmds, depth.slot),
        vec![(AccessType::Nothing, AccessType::TransferWrite)]
    );
    assert_eq!(state[depth.slot], AccessType::TransferWrite);
}

#[test]
fn raster_pass_is_bracketed() {
    let mut rg = RenderGraph::new();
    let mut depth = create_image(
        &mut rg,
        ImageDesc::new_2d(32, 32, ImageFormat::D24UnormS8Uint, 0),
    );
    let mut color = create_image(&mut rg, rgba8_64());
    let mesh_buffer = rg.import(&ResourceDesc::Buffer(BufferDesc { size: 128, usage: 0 }), AccessType::Nothing);
    let vertex_buffer = rg.import(&ResourceDesc::Buffer(BufferDesc { size: 256, usage: 0 }), AccessType::Nothing);
    let meshes = vec![UploadedTriMesh {
        index_buffer: Buffer { desc: BufferDesc { size: 36, usage: 0 }, access: AccessType::IndexBuffer },
        index_buffer_id: 7,
        index_count: 36,
    }];
    raster_meshes(
        &mut rg,
        &mut depth,
        &mut color,
        RasterMeshesData {
            meshes: &meshes,
            mesh_buffer: &mesh_buffer,
            vertex_buffer: &vertex_buffer,
            bindless_descriptor_set: 3,
        },
    );
    let (cmds, state) = rg.record();
    let begins = cmds.iter().filter(|c| matches!(c, RecordedCommand::BeginRenderPass { .. })).count();
    let ends = cmds.iter().filter(|c| matches!(c, RecordedCommand::EndRenderPass { .. })).count();
    assert_eq!(begins, 1);
    assert_eq!(ends, 1);
    assert_eq!(state[depth.slot], AccessType::DepthStencilAttachmentWrite);
    assert_eq!(state[color.slot], AccessType::ColorAttachmentWrite);
    assert_eq!(state[mesh_buffer.slot], AccessType::VertexShaderRead);
    let last = rg.passes.last().unwrap();
    match &last.body {
        PassBody::Raster { draws, bindless_descriptor_set, .. } => {
            assert_eq!(draws.len(), 1);
            assert_eq!(draws[0].index_buffer_id, 7);
            assert_eq!(draws[0].index_count, 36);
            assert_eq!(*bindless_descriptor_set, 3);
        }
        _ => panic!("expected a raster body"),
    }
}

#[test]
fn half_res_never_drops_below_one_texel() {
    let d = ImageDesc::new_2d(1, 5, ImageFormat::Rgba8Unorm, 0);
    let h = d.half_res();
    assert_eq!(h.extent_x, 1);
    assert_eq!(h.extent_y, 2);
    assert_eq!(h.extent_z, 1);
}
