use craie::host::{
    Host, NodeFlags, NodeHeader, NodeId, NodeKind, DEFAULT_COLOR, DEFAULT_FONT_SIZE, HIDDEN, ROOT,
};
use craie::layout::{invalidate, Layouts};
use craie::scalar::Scalar;

const VIEW: NodeKind = NodeKind(0);
const TEXT: NodeKind = NodeKind(1);

fn family() -> Host {
    let mut host = Host::new();
    host.create(NodeId(0), VIEW).unwrap();
    for i in 1..=3u32 {
        host.create(NodeId(i), TEXT).unwrap();
        host.append_child(NodeId(0), NodeId(i));
    }
    host
}

#[test]
fn create_and_index() {
    let mut host = Host::new();
    host.create(NodeId(0), VIEW).unwrap();
    host.create(NodeId(5), TEXT).unwrap();
    assert_eq!(host.len(), 2);
    assert_eq!(host.node(NodeId(5)).unwrap().kind(), TEXT);
    // Unoccupied slots read as absent.
    assert!(host.node(NodeId(3)).is_none());
    // Creating over a live slot fails.
    assert!(host.create(NodeId(0), TEXT).is_none());
}

#[test]
fn append_maintains_order_and_counts() {
    let mut host = Host::new();
    host.create(NodeId(0), VIEW).unwrap();
    for i in 1..=3u32 {
        host.create(NodeId(i), TEXT).unwrap();
        host.append_child(NodeId(0), NodeId(i));
    }
    assert_eq!(
        host.children(NodeId(0)),
        vec![NodeId(1), NodeId(2), NodeId(3)]
    );
    assert_eq!(host.child_count(NodeId(0)), 3);
    assert_eq!(host.node(NodeId(2)).unwrap().parent, 0);
}

#[test]
fn insert_before_splices() {
    let mut host = family();
    host.create(NodeId(9), TEXT).unwrap();
    host.insert_before(NodeId(0), NodeId(9), NodeId(2));
    assert_eq!(
        host.children(NodeId(0)),
        vec![NodeId(1), NodeId(9), NodeId(2), NodeId(3)]
    );
}

#[test]
fn reappend_moves_node() {
    let mut host = family();
    host.append_child(NodeId(0), NodeId(1));
    assert_eq!(
        host.children(NodeId(0)),
        vec![NodeId(2), NodeId(3), NodeId(1)]
    );
    assert_eq!(host.child_count(NodeId(0)), 3);
}

#[test]
fn remove_recycles_slot_and_bumps_generation() {
    let mut host = Host::new();
    host.create(NodeId(0), VIEW).unwrap();
    host.create(NodeId(1), TEXT).unwrap();
    host.append_child(NodeId(0), NodeId(1));
    let gen0 = host.node(NodeId(1)).unwrap().generation;
    host.remove(NodeId(1));
    assert_eq!(host.len(), 1);
    assert!(host.node(NodeId(1)).is_none());
    assert_eq!(host.children(NodeId(0)), vec![]);
    // Reuse of the same id carries the bumped generation, so a stale
    // (id, generation) pair can never reach the new node.
    let node = host.create(NodeId(1), TEXT).unwrap();
    assert_eq!(node.generation, gen0.wrapping_add(1));
}

#[test]
fn roots_are_children_of_nil() {
    let mut host = Host::new();
    host.create(NodeId(0), VIEW).unwrap();
    host.create(NodeId(1), VIEW).unwrap();
    host.append_child(NodeId(ROOT), NodeId(0));
    host.append_child(NodeId(ROOT), NodeId(1));
    assert_eq!(host.children(NodeId(ROOT)), vec![NodeId(0), NodeId(1)]);
    host.remove(NodeId(0));
    assert_eq!(host.children(NodeId(ROOT)), vec![NodeId(1)]);
}

#[test]
fn hidden_bit_does_not_change_kind() {
    let mut host = Host::new();
    let node = host.create(NodeId(0), VIEW).unwrap();
    node.kind = VIEW.0 | HIDDEN;
    let node = host.node(NodeId(0)).unwrap();
    assert!(node.hidden());
    assert_eq!(node.kind(), VIEW);
}

#[test]
fn header_stays_compact() {
    assert_eq!(std::mem::size_of::<NodeHeader>(), 20);
}

#[test]
fn a_child_cannot_be_placed_below_itself() {
    let mut host = family();
    host.append_child(NodeId(2), NodeId(3));
    assert!(!host.can_place(NodeId(2), NodeId(0)));
    assert!(!host.can_place(NodeId(3), NodeId(0)));
    assert!(!host.can_place(NodeId(1), NodeId(1)));
    assert!(!host.can_place(NodeId(0), NodeId(77)));
    assert!(host.can_place(NodeId(1), NodeId(3)));
    assert!(host.can_place(NodeId(ROOT), NodeId(3)));
}

#[test]
fn unknown_sibling_appends() {
    let mut host = family();
    host.create(NodeId(9), TEXT).unwrap();
    host.insert_before(NodeId(0), NodeId(9), NodeId(55));
    assert_eq!(
        host.children(NodeId(0)),
        vec![NodeId(1), NodeId(2), NodeId(3), NodeId(9)]
    );
}

#[test]
fn detach_undoes_a_placement() {
    let mut host = family();
    host.create(NodeId(9), TEXT).unwrap();
    host.insert_before(NodeId(0), NodeId(9), NodeId(2));
    assert_eq!(host.parent(NodeId(9)), NodeId(0));
    host.detach(NodeId(9));
    assert_eq!(
        host.children(NodeId(0)),
        vec![NodeId(1), NodeId(2), NodeId(3)]
    );
    assert_eq!(host.parent(NodeId(9)), NodeId(NodeId::DETACHED));
    assert!(host.node(NodeId(9)).is_some());
}

#[test]
fn siblings_follow_their_first() {
    let host = family();
    assert_eq!(host.first_child(NodeId(0)), NodeId(1));
    assert_eq!(
        host.siblings(NodeId(2)),
        vec![NodeId(2), NodeId(3)]
    );
    assert_eq!(host.first_child(NodeId(1)), NodeId(NodeId::NIL));
    assert_eq!(host.child_at(NodeId(0), 1), NodeId(2));
}

#[test]
fn document_order_is_depth_first() {
    let mut host = family();
    host.append_child(NodeId(ROOT), NodeId(0));
    host.create(NodeId(4), TEXT).unwrap();
    host.append_child(NodeId(2), NodeId(4));
    assert_eq!(
        host.document_order(false),
        vec![NodeId(0), NodeId(1), NodeId(2), NodeId(4), NodeId(3)]
    );
    host.set_hidden(NodeId(2), true);
    assert_eq!(
        host.document_order(true),
        vec![NodeId(0), NodeId(1), NodeId(3)]
    );
    assert_eq!(
        host.path_to(NodeId(4)),
        vec![NodeId(4), NodeId(2), NodeId(0)]
    );
}

#[test]
fn text_and_paint_rows_are_private() {
    let mut host = family();
    host.set_text(NodeId(1), "one");
    host.set_text(NodeId(2), "two");
    assert_eq!(host.text(NodeId(1)).unwrap().text, "one");
    assert_eq!(host.text(NodeId(2)).unwrap().text, "two");
    assert_eq!(host.text(NodeId(1)).unwrap().font_size, Scalar(14f32.to_bits()));
    assert_eq!(DEFAULT_FONT_SIZE, 14f32.to_bits());
    assert_eq!(host.text(NodeId(1)).unwrap().color, DEFAULT_COLOR);
    assert!(host.text(NodeId(0)).is_none());
    host.set_view_paint(NodeId(0), 0x1122_3344);
    assert_eq!(host.view(NodeId(0)).unwrap().color, 0x1122_3344);
    host.set_paint(
        NodeId(0),
        None,
        Some(Scalar(4f32.to_bits())),
        Some((0xFF, Scalar(2f32.to_bits()))),
    );
    let row = host.view(NodeId(0)).unwrap();
    assert_eq!(row.color, 0x1122_3344);
    assert_eq!(row.radius, Scalar(4f32.to_bits()));
    assert_eq!(row.border_color, 0xFF);
    assert_eq!(row.border_w, Scalar(2f32.to_bits()));
}

#[test]
fn recolor_keeps_layout_clean() {
    let mut host = family();
    let mut layouts = Layouts::new();
    host.set_text(NodeId(1), "one");
    invalidate(&mut host, &mut layouts);
    host.clear_paint_dirty();
    host.set_text_props(NodeId(1), Scalar(14f32.to_bits()), 0xFF);
    assert!(host.paint_dirty());
    assert!(host.take_layout_dirty().is_empty());
    host.set_text_props(NodeId(1), Scalar(20f32.to_bits()), 0xFF);
    assert_eq!(host.take_layout_dirty(), vec![NodeId(1)]);
}

#[test]
fn marking_twice_queues_once() {
    let mut host = family();
    let _ = host.take_layout_dirty();
    for n in 1..=3 {
        host.node_mut(NodeId(n)).unwrap().flags.clear(NodeFlags(NodeFlags::LAYOUT_TEXT));
    }
    host.mark_dirty(NodeId(2), NodeFlags(NodeFlags::LAYOUT));
    host.mark_dirty(NodeId(2), NodeFlags(NodeFlags::TEXT));
    assert_eq!(host.take_layout_dirty(), vec![NodeId(2)]);
}

#[test]
fn props_belong_to_a_node() {
    let mut host = family();
    assert_eq!(host.props(NodeId(1)).listeners, 0);
    assert!(!host.props(NodeId(1)).focusable);
    host.set_props(NodeId(1), 0x40, true);
    assert_eq!(host.props(NodeId(1)).listeners, 0x40);
    assert!(host.props(NodeId(1)).focusable);
    assert_eq!(host.props(NodeId(2)).listeners, 0);
}

#[test]
fn flags_set_and_clear() {
    let mut f = NodeFlags(NodeFlags::NONE);
    f.set(NodeFlags(NodeFlags::TEXT));
    assert!(f.contains(NodeFlags(NodeFlags::TEXT)));
    assert!(!f.contains(NodeFlags(NodeFlags::LAYOUT)));
    f.set(NodeFlags(NodeFlags::LAYOUT));
    assert_eq!(f, NodeFlags(NodeFlags::LAYOUT_TEXT));
    f.clear(NodeFlags(NodeFlags::TEXT));
    assert_eq!(f, NodeFlags(NodeFlags::LAYOUT));
    assert!(NodeId(NodeId::NIL).is_nil());
    assert!(!NodeId(0).is_nil());
}

#[test]
fn lookups_in_solver_caches_are_counted() {
    let mut layouts = Layouts::new();
    assert_eq!((layouts.cache_hits, layouts.cache_misses), (0, 0));
    layouts.count_lookup(false);
    layouts.count_lookup(true);
    layouts.count_lookup(false);
    assert_eq!((layouts.cache_hits, layouts.cache_misses), (1, 2));
    layouts.clear_all_caches(3);
    assert_eq!((layouts.cache_hits, layouts.cache_misses), (1, 2));
}
