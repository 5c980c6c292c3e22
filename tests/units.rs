use yakui_core::backend::{Multisampling, PipelineCache, PipelineKey, SurfacePlan};
use yakui_core::clipping::{AbstractClipRect, ClipLogic, ClipRect};
use yakui_core::geometry::{scale_div, AxisAlign, Alignment, Constraints, Rect, Vec2, UNBOUNDED};
use yakui_core::paint::{
    diff_textures, scissor, PaintCall, PaintDom, Pipeline, ScissorRect, TextureChange, TextureEdit,
    TextureEntry, TextureId, Vertex,
};
use yakui_core::textbox::{
    BoxState, DragState, EditorAction, KeyCode, Modifiers, MouseButton, SelectionChange, TextBox,
    TextBoxWidget, WidgetEvent,
};
use yakui_core::widget::{EventInterest, EventResponse};

fn rect(x: i64, y: i64, w: i64, h: i64) -> Rect {
    Rect::from_pos_size(Vec2::new(x, y), Vec2::new(w, h))
}

#[test]
fn constrain_intersects() {
    assert_eq!(rect(0, 0, 100, 100).constrain(rect(50, 20, 100, 100)), rect(50, 20, 50, 80));
    let apart = rect(0, 0, 10, 10).constrain(rect(20, 20, 5, 5));
    assert_eq!(apart, rect(20, 20, 0, 0));
    assert!(apart.is_degenerate());
}

#[test]
fn saturating_edges() {
    let r = rect(i64::MAX - 5, 0, 100, 1);
    assert_eq!(r.max(), Vec2::new(i64::MAX, 1));
    assert_eq!(Vec2::new(i64::MIN, 0).sub(Vec2::new(1, 0)), Vec2::new(i64::MIN, 0));
}

#[test]
fn contains_point_excludes_far_edges() {
    let r = rect(10, 10, 5, 5);
    assert!(r.contains_point(Vec2::new(10, 10)));
    assert!(r.contains_point(Vec2::new(14, 14)));
    assert!(!r.contains_point(Vec2::new(15, 14)));
    assert!(!r.contains_point(Vec2::new(9, 12)));
}

#[test]
fn constraints_max_wins_when_crossed() {
    let c = Constraints { min: Vec2::new(50, 50), max: Vec2::new(30, 80) };
    assert_eq!(c.constrain(Vec2::new(10, 10)), Vec2::new(30, 50));
    assert_eq!(Constraints::tight(Vec2::new(8, 9)).constrain(Vec2::new(100, 0)), Vec2::new(8, 9));
    assert_eq!(Constraints::none().constrain(Vec2::new(123, 456)), Vec2::new(123, 456));
    assert_eq!(Constraints::none().max, Vec2::new(UNBOUNDED, UNBOUNDED));
    assert_eq!(Constraints::loose(Vec2::new(5, 5)).constrain_min(Vec2::new(2, 7)), Vec2::new(2, 7));
}

#[test]
fn alignment_places_boxes() {
    let outer = Vec2::new(800, 600);
    let inner = Vec2::new(100, 50);
    assert_eq!(Alignment::bottom_right().place(outer, inner), Vec2::new(700, 550));
    assert_eq!(Alignment::center().place(outer, inner), Vec2::new(350, 275));
    assert_eq!(Alignment::top_left().place(outer, inner), Vec2::new(0, 0));
    assert_eq!(Alignment::new(AxisAlign::Center, AxisAlign::Center).place(Vec2::new(0, 0), Vec2::new(5, 5)), Vec2::new(-2, -2));
    assert_eq!(Alignment::bottom_left().place(outer, inner), Vec2::new(0, 550));
}

#[test]
fn clip_rect_states() {
    let vp = rect(0, 0, 800, 600);
    assert_eq!(ClipRect::Unresolved.get_rect(vp), rect(0, 0, 0, 0));
    assert_eq!(ClipRect::EntireViewport.get_rect(vp), vp);
    assert_eq!(ClipRect::Resolved(rect(1, 2, 3, 4)).get_rect(vp), rect(1, 2, 3, 4));
    let parent = rect(0, 0, 100, 100);
    assert_eq!(ClipRect::Unresolved.resolve_rect(rect(50, 50, 100, 100), parent, vp), rect(50, 50, 50, 50));
    assert_eq!(ClipRect::EntireViewport.resolve_rect(rect(50, 50, 100, 100), parent, vp), vp);
    assert_eq!(ClipRect::Unresolved.resolve_node(rect(200, 200, 10, 10), parent, vp), parent);
}

#[test]
fn clip_logic_rules() {
    let parent = rect(0, 0, 100, 100);
    let layout = rect(50, 50, 100, 100);
    let vp = rect(0, 0, 800, 600);
    assert_eq!(ClipLogic::Pass.resolve(parent, layout, vp), parent);
    assert_eq!(ClipLogic::default(), ClipLogic::Pass);
    assert_eq!(
        ClipLogic::Constrain(AbstractClipRect::ParentClip, AbstractClipRect::LayoutRect).resolve(parent, layout, vp),
        rect(50, 50, 50, 50)
    );
    assert_eq!(ClipLogic::Override(AbstractClipRect::Viewport).resolve(parent, layout, vp), vp);
    assert_eq!(
        ClipLogic::Override(AbstractClipRect::Value(rect(7, 7, 7, 7))).resolve(parent, layout, vp),
        rect(7, 7, 7, 7)
    );
    assert_eq!(AbstractClipRect::LayoutRect.to_rect(parent, layout, vp), layout);
}

fn frame(paint: &mut PaintDom, refs: &[(u64, u64)]) -> Vec<TextureEdit> {
    paint.start();
    for &(id, v) in refs {
        paint.reference_texture(id, v);
    }
    paint.finish();
    paint.texture_edits.clone()
}

#[test]
fn texture_added_kept_then_removed() {
    let mut paint = PaintDom::new();
    assert_eq!(frame(&mut paint, &[(7, 1)]), vec![TextureEdit { id: 7, change: TextureChange::Added }]);
    assert_eq!(frame(&mut paint, &[(7, 1)]), vec![]);
    assert_eq!(frame(&mut paint, &[]), vec![TextureEdit { id: 7, change: TextureChange::Removed }]);
    assert_eq!(frame(&mut paint, &[]), vec![]);
}

#[test]
fn texture_modified_when_version_changes() {
    let mut paint = PaintDom::new();
    frame(&mut paint, &[(1, 1), (2, 1)]);
    assert_eq!(
        frame(&mut paint, &[(2, 2), (1, 1), (3, 1)]),
        vec![
            TextureEdit { id: 2, change: TextureChange::Modified },
            TextureEdit { id: 3, change: TextureChange::Added },
        ]
    );
    let edits = diff_textures(
        &vec![TextureEntry { id: 4, version: 1 }, TextureEntry { id: 5, version: 1 }],
        &vec![TextureEntry { id: 5, version: 1 }],
    );
    assert_eq!(edits, vec![TextureEdit { id: 4, change: TextureChange::Removed }]);
}

#[test]
fn referencing_twice_keeps_later_version() {
    let mut paint = PaintDom::new();
    paint.start();
    paint.reference_texture(9, 1);
    paint.reference_texture(9, 3);
    assert_eq!(paint.textures, vec![TextureEntry { id: 9, version: 3 }]);
}

#[test]
fn scissor_cuts_and_drops() {
    assert_eq!(scissor(rect(10, 20, 30, 40), 800, 600), Some(ScissorRect { x: 10, y: 20, w: 30, h: 40 }));
    assert_eq!(scissor(rect(780, 590, 50, 50), 800, 600), Some(ScissorRect { x: 780, y: 590, w: 20, h: 10 }));
    assert_eq!(scissor(rect(-10, -10, 30, 30), 800, 600), Some(ScissorRect { x: 0, y: 0, w: 30, h: 30 }));
    assert_eq!(scissor(rect(900, 10, 30, 30), 800, 600), None);
    assert_eq!(scissor(rect(10, 10, 0, 30), 800, 600), None);
    assert_eq!(scissor(rect(800, 10, 30, 30), 800, 600), None);
}

fn vertex(x: i64) -> Vertex {
    Vertex { position: Vec2::new(x, 0), texcoord: Vec2::new(0, 0), color: 0xffff_ffff }
}

#[test]
fn commands_shift_indices_and_drop_invisible_calls() {
    let mut paint = PaintDom::new();
    paint.set_surface_size(800, 600);
    paint.add_call(PaintCall {
        vertices: vec![vertex(0), vertex(1), vertex(2)],
        indices: vec![0, 1, 2],
        texture: None,
        pipeline: Pipeline::Main,
        clip: None,
    });
    paint.add_call(PaintCall {
        vertices: vec![vertex(3), vertex(4)],
        indices: vec![1, 0],
        texture: Some(TextureId::Managed(7)),
        pipeline: Pipeline::Text,
        clip: Some(rect(900, 0, 10, 10)),
    });
    paint.add_call(PaintCall {
        vertices: vec![vertex(5)],
        indices: vec![0, 0, 0],
        texture: Some(TextureId::User(2)),
        pipeline: Pipeline::Main,
        clip: Some(rect(5, 5, 10, 10)),
    });
    let mut vertices = Vec::new();
    let mut indices = Vec::new();
    let commands = paint.build_commands(&mut vertices, &mut indices);
    assert_eq!(vertices.len(), 6);
    assert_eq!(vertices[3], vertex(3));
    assert_eq!(indices, vec![0, 1, 2, 4, 3, 5, 5, 5]);
    assert_eq!(commands.len(), 2);
    assert_eq!(commands[0].call, 0);
    assert_eq!((commands[0].index_start, commands[0].index_end), (0, 3));
    assert_eq!(commands[0].scissor, ScissorRect { x: 0, y: 0, w: 800, h: 600 });
    assert_eq!(commands[1].call, 2);
    assert_eq!((commands[1].index_start, commands[1].index_end), (5, 8));
    assert_eq!(commands[1].texture, Some(TextureId::User(2)));
    assert_eq!(commands[1].scissor, ScissorRect { x: 5, y: 5, w: 10, h: 10 });
}

fn no_mods() -> Modifiers {
    Modifiers { shift: false, ctrl: false }
}

#[test]
fn textbox_enter_ends_inline_edit() {
    let mut w = TextBoxWidget::new();
    let out = w.event(true, Some(Vec2::new(0, 0)), &WidgetEvent::KeyChanged { key: KeyCode::Enter, down: true, modifiers: no_mods() });
    assert_eq!(out.response, EventResponse::Sink);
    assert_eq!(out.action, None);
    assert_eq!(out.selection, SelectionChange::Clear);
    assert!(w.state.activated);
    let r = w.respond(Some("hi".to_string()));
    assert!(r.activated);
    assert_eq!(r.text, None);
    assert!(!w.state.activated);
}

#[test]
fn textbox_multiline_shift_enter_breaks_line() {
    let mut w = TextBoxWidget::new();
    let mut props = TextBox::new(None);
    props.multiline = true;
    w.update(props);
    let out = w.event(true, None, &WidgetEvent::KeyChanged { key: KeyCode::NumpadEnter, down: true, modifiers: Modifiers { shift: true, ctrl: false } });
    assert_eq!(out.action, Some(EditorAction::Enter));
    assert!(w.state.text_changed);
    let r = w.respond(Some("a\nb".to_string()));
    assert_eq!(r.text, Some("a\nb".to_string()));
}

#[test]
fn textbox_keys_without_editor_bubble() {
    let mut w = TextBoxWidget::new();
    let out = w.event(false, None, &WidgetEvent::KeyChanged { key: KeyCode::ArrowLeft, down: true, modifiers: no_mods() });
    assert_eq!(out.response, EventResponse::Bubble);
    let out = w.event(true, None, &WidgetEvent::KeyChanged { key: KeyCode::ArrowLeft, down: true, modifiers: Modifiers { shift: false, ctrl: true } });
    assert_eq!(out.action, Some(EditorAction::Motion(yakui_core::textbox::Motion::LeftWord)));
    let out = w.event(true, None, &WidgetEvent::KeyChanged { key: KeyCode::Backspace, down: false, modifiers: no_mods() });
    assert_eq!(out.action, None);
    assert_eq!(out.response, EventResponse::Sink);
}

#[test]
fn textbox_click_and_drag() {
    let mut w = TextBoxWidget::new();
    let press = WidgetEvent::MouseButtonChanged {
        button: MouseButton::One,
        inside: true,
        down: true,
        position: Vec2::new(30, 40),
        modifiers: no_mods(),
    };
    let out = w.event(true, Some(Vec2::new(10, 10)), &press);
    assert_eq!(out.action, Some(EditorAction::Click { x: 12, y: 22 }));
    assert_eq!(out.selection, SelectionChange::SelectThis);
    assert_eq!(w.state.drag, DragState::DragStart);
    let out = w.event(true, Some(Vec2::new(10, 10)), &WidgetEvent::MouseMoved(Some(Vec2::new(31, 40))));
    assert_eq!(out.action, None);
    assert_eq!(w.state.drag, DragState::Dragging);
    let out = w.event(true, Some(Vec2::new(10, 10)), &WidgetEvent::MouseMoved(Some(Vec2::new(50, 40))));
    assert_eq!(out.action, Some(EditorAction::Drag { x: 32, y: 22 }));
    let release = WidgetEvent::MouseButtonChanged {
        button: MouseButton::One,
        inside: true,
        down: false,
        position: Vec2::new(50, 40),
        modifiers: no_mods(),
    };
    w.event(true, Some(Vec2::new(10, 10)), &release);
    assert_eq!(w.state.drag, DragState::Idle);
    let out = w.event(true, None, &WidgetEvent::MouseMoved(Some(Vec2::new(1, 1))));
    assert_eq!(out.response, EventResponse::Bubble);
}

#[test]
fn textbox_text_input() {
    let mut w = TextBoxWidget::new();
    let out = w.event(true, None, &WidgetEvent::TextInput('x', no_mods()));
    assert_eq!(out.action, Some(EditorAction::Insert('x')));
    assert!(w.state.text_changed);
    let out = w.event(true, None, &WidgetEvent::TextInput('\u{8}', no_mods()));
    assert_eq!(out.response, EventResponse::Bubble);
    let out = w.event(true, None, &WidgetEvent::TextInput('A', Modifiers { shift: false, ctrl: true }));
    assert_eq!(out.action, Some(EditorAction::SelectLine));
}

#[test]
fn textbox_focus_loss_resets_cursor() {
    let mut w = TextBoxWidget::new();
    w.event(true, None, &WidgetEvent::FocusChanged(true));
    assert!(w.state.active);
    let out = w.event(true, None, &WidgetEvent::FocusChanged(false));
    assert_eq!(out.action, Some(EditorAction::ResetCursor));
    assert_eq!(
        w.state,
        BoxState { active: false, activated: false, lost_focus: true, drag: DragState::Idle, text_changed: false }
    );
    let r = w.respond(None);
    assert!(r.lost_focus);
    assert_eq!(w.event_interest(), EventInterest::from_bits(1 | 8 | 4));
}

#[test]
fn textbox_with_text_first_time() {
    let first = TextBox::with_text("start", Some("later"), true);
    assert_eq!(first.update_text, Some("start".to_string()));
    let later = TextBox::with_text("start", Some("later"), false);
    assert_eq!(later.update_text, Some("later".to_string()));
    let none = TextBox::with_text("start", None, false);
    assert_eq!(none.update_text, None);
    assert_eq!(none.padding, Vec2::new(8, 8));
}

#[test]
fn pipeline_cache_rebuilds_on_new_key() {
    let mut cache: PipelineCache<u32> = PipelineCache::new();
    let a = PipelineKey { format: 1, depth_format: None, samples: 4 };
    let b = PipelineKey { format: 1, depth_format: Some(2), samples: 4 };
    assert_eq!(*cache.get(a, || 10), 10);
    assert_eq!(*cache.get(a, || 20), 10);
    assert_eq!(*cache.get(b, || 30), 30);
    assert_eq!(*cache.get(a, || 40), 40);
}

#[test]
fn multisampling_target_follows_surface() {
    let mut ms = Multisampling::new(5);
    assert_eq!(ms.surface_info(800, 600, 5, 4), SurfacePlan::Multisampled { recreate: true });
    assert_eq!(ms.surface_info(800, 600, 5, 4), SurfacePlan::Multisampled { recreate: false });
    assert_eq!(ms.surface_info(1024, 600, 5, 4), SurfacePlan::Multisampled { recreate: true });
    assert_eq!(ms.surface_info(1024, 600, 5, 1), SurfacePlan::Direct);
    assert!(!ms.has_target);
    assert_eq!(ms.surface_info(1024, 600, 5, 4), SurfacePlan::Multisampled { recreate: true });
}

#[test]
fn scale_division_rounds_toward_zero() {
    assert_eq!(scale_div(7, 2), 3);
    assert_eq!(scale_div(-7, 2), -3);
    assert_eq!(scale_div(-8, 2), -4);
    assert_eq!(scale_div(i64::MIN, 1), i64::MIN);
    assert_eq!(scale_div(i64::MIN, 2), i64::MIN / 2);
    assert_eq!(scale_div(i64::MIN, 3), i64::MIN / 3);
    assert_eq!(scale_div(i64::MAX, 3), i64::MAX / 3);
}

#[test]
fn new_text_counts_as_changed_only_once_applied() {
    let mut w = TextBoxWidget::new();
    w.update(TextBox::new(Some("fresh".to_string())));
    let r = w.respond(Some("old".to_string()));
    assert_eq!(r.text, None);
    w.update(TextBox::new(Some("fresh".to_string())));
    assert_eq!(w.take_update_text(), Some("fresh".to_string()));
    assert_eq!(w.take_update_text(), None);
    let r = w.respond(Some("fresh".to_string()));
    assert_eq!(r.text, Some("fresh".to_string()));
    let r = w.respond(Some("fresh".to_string()));
    assert_eq!(r.text, None);
}

#[test]
fn zero_surface_gets_no_commands() {
    let mut paint = PaintDom::new();
    paint.add_call(PaintCall {
        vertices: vec![vertex(0), vertex(1), vertex(2)],
        indices: vec![0, 1, 2],
        texture: None,
        pipeline: Pipeline::Main,
        clip: None,
    });
    let mut vertices = Vec::new();
    let mut indices = Vec::new();
    let commands = paint.build_commands(&mut vertices, &mut indices);
    assert!(commands.is_empty());
    assert_eq!(indices, vec![0, 1, 2]);
}
