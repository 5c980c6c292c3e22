use yakui_core::absolute::Absolute;
use yakui_core::clipping::ClipRect;
use yakui_core::dom::{Handle, WidgetKey};
use yakui_core::geometry::{Alignment, Rect, Vec2};
use yakui_core::input::{bubble_targets, hit_test, InputState};
use yakui_core::ui::Yakui;
use yakui_core::widget::{EventInterest, WidgetKind, FOCUSED_KEYBOARD, MOUSE_INSIDE};

fn key(site: u64, index: u32) -> WidgetKey {
    WidgetKey { site, index }
}

fn rect(x: i64, y: i64, w: i64, h: i64) -> Rect {
    Rect::from_pos_size(Vec2::new(x, y), Vec2::new(w, h))
}

fn ui_800x600() -> Yakui {
    let mut ui = Yakui::new();
    ui.layout.set_unscaled_viewport(rect(0, 0, 800, 600));
    ui
}

fn leaf(ui: &mut Yakui, k: WidgetKey, kind: WidgetKind, interest: EventInterest) -> Handle {
    let h = ui.dom.begin_widget(k, kind, interest);
    ui.dom.end_widget();
    h
}

#[test]
fn same_key_same_parent_keeps_handle() {
    let mut ui = ui_800x600();
    ui.start();
    let first = leaf(&mut ui, key(5, 0), WidgetKind::Column, EventInterest::empty());
    ui.finish();
    ui.start();
    let second = leaf(&mut ui, key(5, 0), WidgetKind::Column, EventInterest::empty());
    ui.finish();
    assert_eq!(first, second);
}

#[test]
fn nested_key_keeps_handle_across_frames() {
    let mut ui = ui_800x600();
    let mut seen = Vec::new();
    for _ in 0..3 {
        ui.start();
        let outer = ui.dom.begin_widget(key(1, 0), WidgetKind::Column, EventInterest::empty());
        let inner = leaf(&mut ui, key(2, 0), WidgetKind::Sized(Vec2::new(10, 10)), EventInterest::empty());
        ui.dom.end_widget();
        let removed = ui.finish();
        assert!(removed.is_empty());
        seen.push((outer, inner));
    }
    assert_eq!(seen[0], seen[1]);
    assert_eq!(seen[1], seen[2]);
}

#[test]
fn sibling_index_tells_repeated_calls_apart() {
    let mut ui = ui_800x600();
    ui.start();
    let a = leaf(&mut ui, key(9, 0), WidgetKind::Column, EventInterest::empty());
    let b = leaf(&mut ui, key(9, 1), WidgetKind::Column, EventInterest::empty());
    ui.finish();
    assert_ne!(a, b);
    ui.start();
    let b2 = leaf(&mut ui, key(9, 1), WidgetKind::Column, EventInterest::empty());
    let a2 = leaf(&mut ui, key(9, 0), WidgetKind::Column, EventInterest::empty());
    ui.finish();
    assert_eq!(a, a2);
    assert_eq!(b, b2);
}

#[test]
fn subtree_not_redeclared_is_removed_everywhere() {
    let mut ui = ui_800x600();
    ui.start();
    let parent = ui.dom.begin_widget(key(1, 0), WidgetKind::Column, EventInterest::from_bits(MOUSE_INSIDE));
    let child = leaf(&mut ui, key(2, 0), WidgetKind::Sized(Vec2::new(20, 20)), EventInterest::from_bits(MOUSE_INSIDE));
    ui.dom.end_widget();
    let removed = ui.finish();
    assert!(removed.is_empty());
    assert!(ui.layout.get(parent).is_some());
    assert!(ui.layout.get(child).is_some());
    ui.input.set_focus(Some(child));

    ui.start();
    let removed = ui.finish();
    assert_eq!(removed.len(), 2);
    assert!(removed.contains(&parent));
    assert!(removed.contains(&child));
    assert!(ui.dom.get(parent).is_none());
    assert!(ui.dom.get(child).is_none());
    assert!(ui.layout.get(parent).is_none());
    assert!(ui.layout.get(child).is_none());
    assert!(ui.layout.interest_mouse.entries.iter().all(|e| e.id != parent && e.id != child));
    assert_eq!(ui.input.focused, None);
    assert!(ui.dom.get(ui.dom.root()).is_some());
}

#[test]
fn removed_handle_is_not_reused_for_new_node() {
    let mut ui = ui_800x600();
    ui.start();
    let old = leaf(&mut ui, key(1, 0), WidgetKind::Column, EventInterest::empty());
    ui.finish();
    ui.start();
    ui.finish();
    ui.start();
    let new = leaf(&mut ui, key(1, 0), WidgetKind::Column, EventInterest::empty());
    ui.finish();
    assert_ne!(old, new);
    assert_eq!(old.slot(), new.slot());
    assert!(ui.dom.get(old).is_none());
    assert!(ui.dom.get(new).is_some());
}

#[test]
fn tight_child_fills_viewport() {
    let mut ui = ui_800x600();
    ui.start();
    let child = leaf(&mut ui, key(1, 0), WidgetKind::Sized(Vec2::new(800, 600)), EventInterest::empty());
    ui.finish();
    let n = ui.layout.get(child).unwrap();
    assert_eq!(n.rect, rect(0, 0, 800, 600));
    assert_eq!(n.clip_rect, ClipRect::Resolved(rect(0, 0, 800, 600)));
    let root = ui.layout.get(ui.dom.root()).unwrap();
    assert_eq!(root.rect, rect(0, 0, 800, 600));
}

#[test]
fn zero_size_clip_falls_back_to_parent_clip() {
    let mut ui = ui_800x600();
    ui.start();
    ui.dom.begin_widget(key(1, 0), WidgetKind::Column, EventInterest::empty());
    let boxed = ui.dom.begin_widget(key(2, 0), WidgetKind::Sized(Vec2::new(100, 100)), EventInterest::empty());
    let empty = leaf(&mut ui, key(3, 0), WidgetKind::Sized(Vec2::new(0, 50)), EventInterest::empty());
    ui.dom.end_widget();
    ui.dom.end_widget();
    ui.finish();
    let parent_clip = ui.layout.get(boxed).unwrap().clip_rect;
    assert_eq!(parent_clip, ClipRect::Resolved(rect(0, 0, 100, 100)));
    let n = ui.layout.get(empty).unwrap();
    assert_eq!(n.rect.size, Vec2::new(0, 50));
    assert_eq!(n.clip_rect, parent_clip);
}

#[test]
fn child_clip_stays_inside_ancestor_clip() {
    let mut ui = ui_800x600();
    ui.start();
    ui.dom.begin_widget(key(1, 0), WidgetKind::Column, EventInterest::empty());
    leaf(&mut ui, key(2, 0), WidgetKind::Sized(Vec2::new(50, 30)), EventInterest::empty());
    let boxed = ui.dom.begin_widget(key(3, 0), WidgetKind::Sized(Vec2::new(100, 100)), EventInterest::empty());
    let wide = leaf(&mut ui, key(4, 0), WidgetKind::Sized(Vec2::new(300, 40)), EventInterest::empty());
    ui.dom.end_widget();
    ui.dom.end_widget();
    ui.finish();
    let outer = ui.layout.get(boxed).unwrap().clip_rect.get_rect(rect(0, 0, 800, 600));
    let inner = ui.layout.get(wide).unwrap().clip_rect.get_rect(rect(0, 0, 800, 600));
    assert_eq!(outer, rect(0, 30, 100, 100));
    assert_eq!(inner, rect(0, 30, 100, 40));
    assert!(outer.pos.x <= inner.pos.x && outer.pos.y <= inner.pos.y);
    assert!(inner.max().x <= outer.max().x && inner.max().y <= outer.max().y);
}

#[test]
fn escaping_node_is_clipped_to_viewport() {
    let mut ui = ui_800x600();
    ui.start();
    ui.dom.begin_widget(key(1, 0), WidgetKind::Column, EventInterest::empty());
    ui.dom.begin_widget(key(2, 0), WidgetKind::Sized(Vec2::new(10, 10)), EventInterest::empty());
    let esc = ui.dom.begin_widget(key(3, 0), WidgetKind::Escape, EventInterest::empty());
    ui.dom.end_widget();
    ui.dom.end_widget();
    ui.dom.end_widget();
    ui.finish();
    assert_eq!(ui.layout.get(esc).unwrap().clip_rect, ClipRect::Resolved(rect(0, 0, 800, 600)));
}

#[test]
fn column_stacks_children() {
    let mut ui = ui_800x600();
    ui.start();
    let col = ui.dom.begin_widget(key(1, 0), WidgetKind::Column, EventInterest::empty());
    let a = leaf(&mut ui, key(2, 0), WidgetKind::Sized(Vec2::new(50, 30)), EventInterest::empty());
    let b = leaf(&mut ui, key(3, 0), WidgetKind::Sized(Vec2::new(70, 20)), EventInterest::empty());
    ui.dom.end_widget();
    ui.finish();
    assert_eq!(ui.layout.get(a).unwrap().rect, rect(0, 0, 50, 30));
    assert_eq!(ui.layout.get(b).unwrap().rect, rect(0, 30, 70, 20));
    assert_eq!(ui.layout.get(col).unwrap().rect, rect(0, 0, 800, 600));
}

#[test]
fn absolute_bottom_right_ignores_ancestors() {
    let mut ui = ui_800x600();
    ui.start();
    ui.dom.begin_widget(key(1, 0), WidgetKind::Column, EventInterest::empty());
    leaf(&mut ui, key(2, 0), WidgetKind::Sized(Vec2::new(300, 200)), EventInterest::empty());
    let abs = Absolute::new(Alignment::bottom_right(), Alignment::bottom_right(), Vec2::new(0, 0))
        .show(&mut ui.dom, key(3, 0));
    let inner = leaf(&mut ui, key(4, 0), WidgetKind::Sized(Vec2::new(100, 50)), EventInterest::empty());
    ui.dom.end_widget();
    ui.dom.end_widget();
    ui.finish();
    assert_eq!(ui.layout.get(abs).unwrap().rect, rect(700, 550, 100, 50));
    assert_eq!(ui.layout.get(inner).unwrap().rect, rect(700, 550, 100, 50));
}

#[test]
fn absolute_pivot_moves_children() {
    let mut ui = ui_800x600();
    ui.start();
    let abs = Absolute::new(Alignment::top_center(), Alignment::top_left(), Vec2::new(5, 7))
        .show(&mut ui.dom, key(3, 0));
    let inner = leaf(&mut ui, key(4, 0), WidgetKind::Sized(Vec2::new(100, 50)), EventInterest::empty());
    ui.dom.end_widget();
    ui.finish();
    assert_eq!(ui.layout.get(abs).unwrap().rect, rect(5, 7, 800, 600));
    assert_eq!(ui.layout.get(inner).unwrap().rect, rect(405, 7, 100, 50));
}

#[test]
fn later_layer_wins_hit_test() {
    let mut ui = ui_800x600();
    let mouse = EventInterest::from_bits(MOUSE_INSIDE);
    ui.start();
    ui.dom.begin_widget(key(1, 0), WidgetKind::Column, EventInterest::empty());
    let below = leaf(&mut ui, key(2, 0), WidgetKind::Sized(Vec2::new(200, 200)), mouse);
    let layer = ui.dom.begin_widget(key(3, 0), WidgetKind::Layer, EventInterest::empty());
    ui.dom.begin_widget(key(4, 0), WidgetKind::Escape, EventInterest::empty());
    Absolute::new(Alignment::top_left(), Alignment::top_left(), Vec2::new(0, 0)).show(&mut ui.dom, key(5, 0));
    let above = leaf(&mut ui, key(6, 0), WidgetKind::Sized(Vec2::new(100, 100)), mouse);
    ui.dom.end_widget();
    ui.dom.end_widget();
    ui.dom.end_widget();
    ui.dom.end_widget();
    ui.finish();
    assert!(ui.layout.get(layer).unwrap().new_layer);
    let entries = &ui.layout.interest_mouse.entries;
    let k = hit_test(&ui.layout.interest_mouse, &ui.layout, Vec2::new(50, 50)).unwrap();
    assert_eq!(entries[k].id, above);
    assert_eq!(entries[k].layer, 1);
    let k = hit_test(&ui.layout.interest_mouse, &ui.layout, Vec2::new(150, 150)).unwrap();
    assert_eq!(entries[k].id, below);
    assert_eq!(hit_test(&ui.layout.interest_mouse, &ui.layout, Vec2::new(500, 500)), None);
}

#[test]
fn later_sibling_wins_within_layer() {
    let mut ui = ui_800x600();
    let mouse = EventInterest::from_bits(MOUSE_INSIDE);
    ui.start();
    let outer = ui.dom.begin_widget(key(1, 0), WidgetKind::Sized(Vec2::new(300, 300)), mouse);
    let first = leaf(&mut ui, key(2, 0), WidgetKind::Sized(Vec2::new(100, 100)), mouse);
    let second = leaf(&mut ui, key(3, 0), WidgetKind::Sized(Vec2::new(100, 100)), mouse);
    ui.dom.end_widget();
    ui.finish();
    assert_ne!(first, second);
    let k = hit_test(&ui.layout.interest_mouse, &ui.layout, Vec2::new(10, 10)).unwrap();
    assert_eq!(ui.layout.interest_mouse.entries[k].id, second);
    assert_ne!(ui.layout.interest_mouse.entries[k].id, outer);
}

#[test]
fn keyboard_goes_to_focused_node_with_interest() {
    let mut ui = ui_800x600();
    ui.start();
    let typing = leaf(&mut ui, key(1, 0), WidgetKind::Column, EventInterest::from_bits(FOCUSED_KEYBOARD));
    let deaf = leaf(&mut ui, key(2, 0), WidgetKind::Column, EventInterest::from_bits(MOUSE_INSIDE));
    ui.finish();
    let mut input = InputState::new();
    assert_eq!(input.keyboard_target(&ui.layout), None);
    input.set_focus(Some(typing));
    assert_eq!(input.keyboard_target(&ui.layout), Some(typing));
    input.set_focus(Some(deaf));
    assert_eq!(input.keyboard_target(&ui.layout), None);
}

#[test]
fn layers_paint_after_normal_content() {
    let mut ui = ui_800x600();
    ui.start();
    ui.dom.begin_widget(key(1, 0), WidgetKind::Column, EventInterest::empty());
    leaf(&mut ui, key(2, 0), WidgetKind::ColoredBox { size: Vec2::new(10, 10), color: 1 }, EventInterest::empty());
    ui.dom.begin_widget(key(3, 0), WidgetKind::Layer, EventInterest::empty());
    leaf(&mut ui, key(4, 0), WidgetKind::ColoredBox { size: Vec2::new(20, 20), color: 2 }, EventInterest::empty());
    ui.dom.end_widget();
    leaf(&mut ui, key(5, 0), WidgetKind::ColoredBox { size: Vec2::new(30, 30), color: 3 }, EventInterest::empty());
    ui.dom.end_widget();
    ui.finish();
    let colors: Vec<u32> = ui.paint.calls.iter().map(|c| c.vertices[0].color).collect();
    assert_eq!(colors, vec![1, 3, 2]);
    let first = &ui.paint.calls[0];
    assert_eq!(first.indices, vec![0, 1, 2, 0, 2, 3]);
    assert_eq!(first.vertices[2].position, Vec2::new(10, 10));
    assert_eq!(first.clip, Some(rect(0, 0, 10, 10)));
    let layered = &ui.paint.calls[2];
    assert_eq!(layered.vertices[0].position, Vec2::new(0, 10));
    assert_eq!(layered.clip, Some(rect(0, 10, 20, 20)));
}

#[test]
fn dom_and_layout_counts() {
    let mut ui = ui_800x600();
    assert_eq!(ui.dom.len(), 1);
    assert!(ui.layout.is_empty());
    ui.start();
    ui.dom.begin_widget(key(1, 0), WidgetKind::Column, EventInterest::empty());
    leaf(&mut ui, key(2, 0), WidgetKind::Column, EventInterest::empty());
    assert_eq!(ui.dom.current(), ui.dom.stack[1]);
    ui.dom.end_widget();
    ui.dom.end_widget();
    assert_eq!(ui.dom.current(), ui.dom.root());
    ui.dom.end_widget();
    assert_eq!(ui.dom.current(), ui.dom.root());
    ui.finish();
    assert_eq!(ui.dom.len(), 3);
    assert_eq!(ui.layout.len(), 3);
    assert!(!ui.layout.is_empty());
}

#[test]
fn layout_records_can_be_moved_and_dropped() {
    let mut ui = ui_800x600();
    ui.start();
    let a = leaf(&mut ui, key(1, 0), WidgetKind::Column, EventInterest::empty());
    ui.finish();
    ui.layout.set_pos(a, Vec2::new(3, 4));
    assert_eq!(ui.layout.get(a).unwrap().rect.pos, Vec2::new(3, 4));
    ui.layout.sync_removals(&vec![a]);
    assert!(ui.layout.get(a).is_none());
    assert_eq!(ui.layout.len(), 1);
    assert_eq!(ui.layout.unscaled_viewport(), rect(0, 0, 800, 600));
    assert_eq!(ui.layout.viewport(), rect(0, 0, 800, 600));
}

#[test]
fn mouse_events_bubble_to_interested_ancestors() {
    let mut ui = ui_800x600();
    let mouse = EventInterest::from_bits(MOUSE_INSIDE);
    ui.start();
    let outer = ui.dom.begin_widget(key(1, 0), WidgetKind::Column, mouse);
    ui.dom.begin_widget(key(2, 0), WidgetKind::Sized(Vec2::new(50, 50)), EventInterest::empty());
    let inner = leaf(&mut ui, key(3, 0), WidgetKind::Sized(Vec2::new(10, 10)), mouse);
    ui.dom.end_widget();
    ui.dom.end_widget();
    ui.finish();
    assert_eq!(bubble_targets(&ui.dom, &ui.layout, inner, mouse), vec![inner, outer]);
    let keys = EventInterest::from_bits(FOCUSED_KEYBOARD);
    assert_eq!(bubble_targets(&ui.dom, &ui.layout, inner, keys), Vec::<Handle>::new());
}

#[test]
fn redeclaring_updates_the_widget_in_place() {
    let mut ui = ui_800x600();
    ui.start();
    let a = leaf(&mut ui, key(1, 0), WidgetKind::Column, EventInterest::empty());
    ui.finish();
    ui.start();
    let b = leaf(&mut ui, key(1, 0), WidgetKind::Sized(Vec2::new(5, 6)), EventInterest::from_bits(MOUSE_INSIDE));
    ui.finish();
    assert_eq!(a, b);
    let node = ui.dom.get(b).unwrap();
    assert_eq!(node.widget, WidgetKind::Sized(Vec2::new(5, 6)));
    assert_eq!(node.interest, EventInterest::from_bits(MOUSE_INSIDE));
    assert_eq!(node.parent, Some(ui.dom.root()));
    assert_eq!(ui.dom.get(ui.dom.root()).unwrap().children, vec![b]);
}

#[test]
fn same_key_twice_in_one_frame_makes_two_nodes() {
    let mut ui = ui_800x600();
    ui.start();
    let a = leaf(&mut ui, key(4, 0), WidgetKind::Column, EventInterest::empty());
    ui.finish();
    ui.start();
    let first = leaf(&mut ui, key(4, 0), WidgetKind::Column, EventInterest::empty());
    let second = leaf(&mut ui, key(4, 0), WidgetKind::Column, EventInterest::empty());
    let removed = ui.finish();
    assert_eq!(first, a);
    assert_ne!(second, a);
    assert!(removed.is_empty());
    assert_eq!(ui.dom.len(), 3);
}

#[test]
fn moved_child_is_placed_again_by_next_pass() {
    let mut ui = ui_800x600();
    ui.start();
    ui.dom.begin_widget(key(1, 0), WidgetKind::Column, EventInterest::empty());
    leaf(&mut ui, key(2, 0), WidgetKind::Sized(Vec2::new(50, 30)), EventInterest::empty());
    let b = leaf(&mut ui, key(3, 0), WidgetKind::Sized(Vec2::new(70, 20)), EventInterest::empty());
    ui.dom.end_widget();
    ui.finish();
    ui.layout.set_pos(b, Vec2::new(400, 400));
    let _ = ui.layout.calculate_all(&ui.dom);
    assert_eq!(ui.layout.get(b).unwrap().rect, rect(0, 30, 70, 20));
    assert_eq!(ui.layout.len(), 4);
}

#[test]
fn pointer_targets_bubble_from_the_hit_node() {
    let mut ui = ui_800x600();
    let mouse = EventInterest::from_bits(MOUSE_INSIDE);
    ui.start();
    let outer = ui.dom.begin_widget(key(1, 0), WidgetKind::Column, mouse);
    let inner = leaf(&mut ui, key(2, 0), WidgetKind::Sized(Vec2::new(40, 40)), mouse);
    ui.dom.end_widget();
    ui.finish();
    assert_eq!(ui.mouse_targets(Vec2::new(10, 10)), vec![inner, outer]);
    assert_eq!(ui.mouse_targets(Vec2::new(100, 100)), vec![outer]);
    assert_eq!(ui.mouse_targets(Vec2::new(900, 100)), Vec::<Handle>::new());
}

#[test]
fn scale_factor_divides_the_viewport() {
    let mut ui = Yakui::new();
    ui.layout.set_unscaled_viewport(rect(0, 0, 1600, 1200));
    ui.layout.set_scale_factor(2);
    assert_eq!(ui.layout.scale_factor(), 2);
    assert_eq!(ui.layout.viewport(), rect(0, 0, 800, 600));
    ui.start();
    let child = leaf(&mut ui, key(1, 0), WidgetKind::Sized(Vec2::new(10, 10)), EventInterest::empty());
    ui.finish();
    assert_eq!(ui.layout.get(child).unwrap().rect, rect(0, 0, 800, 600));
}

#[test]
fn absolute_show_declares_under_current_parent() {
    let mut ui = ui_800x600();
    let mut seen = Vec::new();
    for _ in 0..2 {
        ui.start();
        let col = ui.dom.begin_widget(key(1, 0), WidgetKind::Column, EventInterest::empty());
        let abs = Absolute::new(Alignment::center(), Alignment::center(), Vec2::new(0, 0)).show(&mut ui.dom, key(2, 0));
        ui.dom.end_widget();
        ui.dom.end_widget();
        ui.finish();
        assert_eq!(ui.dom.get(abs).unwrap().parent, Some(col));
        assert_eq!(ui.dom.get(col).unwrap().children, vec![abs]);
        seen.push(abs);
    }
    assert_eq!(seen[0], seen[1]);
}

#[test]
fn absolute_raised_to_min_constraints_centres_children() {
    let mut ui = ui_800x600();
    ui.start();
    let abs = Absolute::new(Alignment::center(), Alignment::center(), Vec2::new(0, 0)).show(&mut ui.dom, key(2, 0));
    let inner = leaf(&mut ui, key(3, 0), WidgetKind::Sized(Vec2::new(100, 50)), EventInterest::empty());
    ui.dom.end_widget();
    ui.finish();
    assert_eq!(ui.layout.get(abs).unwrap().rect, rect(0, 0, 800, 600));
    assert_eq!(ui.layout.get(inner).unwrap().rect, rect(350, 275, 100, 50));
}
