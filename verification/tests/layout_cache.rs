use conclave::layout::boxes::{build_box, Defaults, LayoutBox, Style, StyledNode};
use conclave::layout::cache::{
    cached_fragment, geometry_equal, relayout_stats, set_layout_cache, set_layout_verify,
    Divergence, Geometry, LayoutCache, LayoutKey, LayoutSession,
};
use conclave::layout::hits::{hit_chain, hit_path, HitNode};
use conclave::layout::{Color, Display, StyledKind};

fn key(x: u32) -> LayoutKey {
    LayoutKey { x, y: 0, cw: 100, ch: 100, fs: 16 }
}

fn kept_box(id: u64) -> LayoutBox<i32> {
    let node = StyledNode {
        kind: StyledKind::Element { tag: "div".to_string() },
        style: Style { display: Some(Display::Block), node_id: Some(id), ..Style::default() },
        children: vec![],
    };
    let black = Color { r: 0, g: 0, b: 0, a: 255 };
    build_box(node, &Defaults { zero: 0, one: 1, text_color: black, font_size_px: 16 })
}

#[test]
fn fragments_are_found_under_their_key() {
    let mut cache: LayoutCache<&str> = LayoutCache::new();
    cache.insert(7, "seven", key(1), 3);
    cache.insert(8, "eight", key(1), 3);
    assert_eq!(cache.lookup(7, key(1), 3), Some(&"seven"));
    assert_eq!(cache.lookup(8, key(1), 3), Some(&"eight"));
    assert_eq!(cache.lookup(7, key(2), 3), None);
    assert_eq!(cache.lookup(7, key(1), 4), None);
    assert_eq!(cache.lookup(9, key(1), 3), None);
}

#[test]
fn only_clean_boxes_are_reused() {
    let mut session = LayoutSession::new();
    let mut cache: LayoutCache<&str> = LayoutCache::new();
    cache.insert(7, "seven", key(1), 3);
    let b = kept_box(7);
    assert_eq!(cached_fragment(&session, &cache, &b, true, key(1)), None);
    set_layout_cache(&mut session, true, 3);
    assert!(session.layout_cache_active());
    assert_eq!(cached_fragment(&session, &cache, &b, true, key(1)), Some(&"seven"));
    assert_eq!(cached_fragment(&session, &cache, &b, false, key(1)), None);
    session.note_floats(true);
    assert!(!session.layout_cache_active());
    assert_eq!(cached_fragment(&session, &cache, &b, true, key(1)), None);
}

#[test]
fn counters_start_over_with_a_cache() {
    let mut session = LayoutSession::new();
    session.count_laid_out();
    session.count_laid_out();
    session.count_reused();
    assert_eq!(relayout_stats(&session), (2, 1));
    set_layout_cache(&mut session, true, 1);
    assert_eq!(relayout_stats(&session), (0, 0));
}

#[test]
fn checking_is_asked_of_the_environment_once() {
    let mut session = LayoutSession::new();
    assert!(session.layout_verify_enabled(Some("1")));
    assert!(session.layout_verify_enabled(None));
    set_layout_verify(&mut session, Some(false));
    assert!(!session.layout_verify_enabled(Some("1")));
    let mut quiet = LayoutSession::new();
    assert!(!quiet.layout_verify_enabled(None));
}

fn geometry(x: u32, children: Vec<Geometry>) -> Geometry {
    Geometry {
        content: [x, 0, 1, 1],
        padding: [0; 4],
        margin: [0; 4],
        border: 0,
        side_borders: [None; 4],
        children,
    }
}

#[test]
fn differences_are_located() {
    let a = geometry(0, vec![geometry(1, vec![]), geometry(2, vec![])]);
    let same = geometry(0, vec![geometry(1, vec![]), geometry(2, vec![])]);
    let moved = geometry(0, vec![geometry(1, vec![]), geometry(3, vec![])]);
    let short = geometry(0, vec![geometry(1, vec![])]);
    assert_eq!(geometry_equal(&a, &same), Ok(()));
    assert_eq!(geometry_equal(&a, &moved), Err((vec![1], Divergence::Content)));
    assert_eq!(geometry_equal(&a, &short), Err((vec![], Divergence::ChildCount)));
}

#[test]
fn borders_are_compared_side_by_side() {
    let a = geometry(0, vec![geometry(1, vec![])]);
    let mut b = geometry(0, vec![geometry(1, vec![])]);
    b.children[0].side_borders[2] = Some(0);
    assert_eq!(geometry_equal(&a, &b), Err((vec![0], Divergence::Border)));
    let mut c = geometry(0, vec![geometry(1, vec![])]);
    c.border = 1;
    assert_eq!(geometry_equal(&a, &c), Err((vec![], Divergence::Border)));
}

fn node(inside: bool, wanted: bool, children: Vec<HitNode>) -> HitNode {
    HitNode { inside, wanted, children }
}

#[test]
fn the_deepest_box_is_hit() {
    let tree = node(
        true,
        true,
        vec![
            node(true, true, vec![node(true, true, vec![])]),
            node(true, true, vec![]),
            node(false, true, vec![]),
        ],
    );
    assert_eq!(hit_path(&tree), Some(vec![0, 0]));
    assert_eq!(hit_path(&node(false, false, vec![])), None);
}

#[test]
fn chains_run_from_the_inside_out() {
    let tree = node(true, true, vec![node(true, false, vec![node(true, true, vec![])])]);
    assert_eq!(hit_chain(&tree), vec![vec![0, 0], vec![]]);
}
