use render_graph::access::AccessType;
use render_graph::schedule::RecordedCommand;
use render_graph::resource::{ImageDesc, ImageFormat};
use render_graph::temporal::{TemporalResourceTable, TemporalResourceKey, TemporalRenderGraph, TemporalError};
use render_graph::renderers::{PingPongTemporalResource, GbufferDepth};
use render_graph::render_passes::{create_image, clear_color, blur};
use render_graph::image_lut::{ImageLut, ClearLutComputer};
use render_graph::input::{KeyboardState, KeyEvent};

fn rgba8(w: u32, h: u32) -> ImageDesc {
    ImageDesc::new_2d(w, h, ImageFormat::Rgba8Unorm, 0)
}

#[test]
fn temporal_request_is_idempotent_within_a_frame() {
    let mut tg = TemporalRenderGraph::new(TemporalResourceTable::new());
    let key = TemporalResourceKey::from_str("ssgi-history");
    let a = tg.get_or_create_temporal(&key, rgba8(8, 8)).unwrap();
    let b = tg.get_or_create_temporal(&key, rgba8(8, 8)).unwrap();
    assert_eq!(a, b);
}

#[test]
fn temporal_desc_mismatch_is_an_error() {
    let mut tg = TemporalRenderGraph::new(TemporalResourceTable::new());
    let key = TemporalResourceKey::from_str("ssgi-history");
    let _a = tg.get_or_create_temporal(&key, rgba8(8, 8)).unwrap();
    let e = tg.get_or_create_temporal(&key, rgba8(16, 16));
    assert_eq!(e, Err(TemporalError::DescMismatch));
}

#[test]
fn ping_pong_swaps_roles_between_calls() {
    let mut tg = TemporalRenderGraph::new(TemporalResourceTable::new());
    let mut pp = PingPongTemporalResource::new("taa");
    let (o1, h1) = pp.get_output_and_history(&mut tg, rgba8(8, 8)).unwrap();
    let (o2, h2) = pp.get_output_and_history(&mut tg, rgba8(8, 8)).unwrap();
    assert_ne!(o1, h1);
    assert_eq!(o2, h1);
    assert_eq!(h2, o1);
}

#[test]
fn exported_access_survives_into_the_next_frame() {
    let mut table = TemporalResourceTable::new();
    let key = TemporalResourceKey::from_str("history");
    {
        let mut tg = TemporalRenderGraph::new(table);
        let mut h = tg.get_or_create_temporal(&key, rgba8(8, 8)).unwrap();
        clear_color(&mut tg.rg, &mut h, [0, 0, 0, 0]);
        let (_cmds, state) = tg.end_frame();
        assert_eq!(state[h.slot], AccessType::TransferWrite);
        table = tg.table;
    }
    // the next frame imports at the exported access, so the first
    // transition starts from it instead of from uninitialized
    let mut tg = TemporalRenderGraph::new(table);
    let h = tg.get_or_create_temporal(&key, rgba8(8, 8)).unwrap();
    let _out = blur(&mut tg.rg, &h);
    let (cmds, _state) = tg.end_frame();
    let first_barrier = cmds.iter().find_map(|c| match c {
        RecordedCommand::Barrier { slot, prev_access, next_access } if *slot == h.slot => {
            Some((*prev_access, *next_access))
        }
        _ => None,
    });
    assert_eq!(
        first_barrier,
        Some((AccessType::TransferWrite, AccessType::ComputeShaderRead))
    );
}

#[test]
fn image_lut_exports_shader_readable() {
    let mut lut = ImageLut::new(ClearLutComputer { desc: rgba8(4, 4), value_bits: [9, 9, 9, 9] });
    let mut tg = TemporalRenderGraph::new(TemporalResourceTable::new());
    lut.compute(&mut tg.rg);
    assert_eq!(lut.image.access, AccessType::AnyShaderReadSampled);
    let (cmds, state) = tg.end_frame();
    // one transition into the clear, one out to shader-readable
    let barriers = cmds
        .iter()
        .filter(|c| matches!(c, RecordedCommand::Barrier { .. }))
        .count();
    assert_eq!(barriers, 2);
    assert_eq!(state[0], AccessType::AnyShaderReadSampled);
}

#[test]
fn gbuffer_half_views_are_memoized() {
    let mut tg = TemporalRenderGraph::new(TemporalResourceTable::new());
    let gbuffer = create_image(&mut tg.rg, rgba8(64, 64));
    let depth = create_image(
        &mut tg.rg,
        ImageDesc::new_2d(64, 64, ImageFormat::D32Sfloat, 0),
    );
    let mut gd = GbufferDepth::new(gbuffer, depth);
    let passes_before = tg.rg.passes.len();
    let a = gd.half_view_normal(&mut tg.rg);
    let passes_after_first = tg.rg.passes.len();
    let b = gd.half_view_normal(&mut tg.rg);
    let passes_after_second = tg.rg.passes.len();
    assert_eq!(a, b);
    assert_eq!(passes_after_first, passes_before + 1);
    assert_eq!(passes_after_second, passes_after_first);
    let hd1 = gd.half_depth(&mut tg.rg);
    let hd2 = gd.half_depth(&mut tg.rg);
    assert_eq!(hd1, hd2);
}

#[test]
fn keyboard_tracks_held_keys_and_ticks() {
    let mut kb = KeyboardState::new();
    kb.update(&vec![KeyEvent { key: 17, pressed: true }]);
    assert!(kb.is_down(17));
    assert!(kb.was_just_pressed(17));
    kb.update(&vec![]);
    assert!(kb.is_down(17));
    assert!(!kb.was_just_pressed(17));
    kb.update(&vec![KeyEvent { key: 17, pressed: false }]);
    assert!(!kb.is_down(17));
    assert!(kb.get_down(17).is_none());
}
