use spider::Page;
use spider::StepOutcome;
use spider::decode;
use spider::isqrt_u128;
use spider::normalize;
use spider::rect_collide;
use spider::resolve_step;
use spider::Tiles;
use spider::Tiledef;
use spider::Tileset;

fn page_of(text: &[u8]) -> Page {
    Page::parse(&text.to_vec(), b"test".to_vec()).ok().expect("document should parse")
}

#[test]
fn rect_collide_same_cell_and_edge() {
    // Ten pixels apart on both axes: overlapping.
    assert!(rect_collide(0, 0, 10000, 10000));
    // Exactly one tile width apart: edge contact, not colliding.
    assert!(!rect_collide(0, 0, 16000, 0));
    assert!(rect_collide(0, 0, 15999, 0));
    assert!(!rect_collide(0, 16000, 0, 0));
}

#[test]
fn isqrt_values() {
    assert_eq!(isqrt_u128(0), 0);
    assert_eq!(isqrt_u128(1), 1);
    assert_eq!(isqrt_u128(2), 1);
    assert_eq!(isqrt_u128(4), 2);
    assert_eq!(isqrt_u128(500000), 707);
    assert_eq!(isqrt_u128(1000000000000000000), 1000000000);
}

#[test]
fn normalize_axial_and_diagonal() {
    assert_eq!(normalize(0, 0), (0, 0));
    assert_eq!(normalize(500, 0), (1000, 0));
    assert_eq!(normalize(0, -500), (0, -1000));
    assert_eq!(normalize(1000, 1000), (707, 707));
    assert_eq!(normalize(-500, 500), (-707, 707));
}

#[test]
fn axis_separation_slides_along_wall() {
    // A wall in the cell to the right; walking diagonally right-down from
    // the origin must still move down.
    let p = page_of(b":map (((1 0) brick))");
    let r = resolve_step(&p, 0, 0, 500, 500);
    assert_eq!(r, StepOutcome::Moved((0, 707)));
}

#[test]
fn free_movement_applies_both_axes() {
    let p = page_of(b"");
    let r = resolve_step(&p, 0, 0, 500, 500);
    assert_eq!(r, StepOutcome::Moved((707, 707)));
}

#[test]
fn blocked_both_axes_stays_put() {
    let p = page_of(b":map (((1 0) brick) ((0 1) brick))");
    let r = resolve_step(&p, 0, 0, 500, 500);
    assert_eq!(r, StepOutcome::Moved((0, 0)));
}

#[test]
fn link_precedes_collision() {
    // The same cell is both a blocking map tile and a link: the link fires
    // and movement is not blocked.
    let p = page_of(b":map (((0 0) brick)) :links (((0 0) \"next\"))");
    let r = resolve_step(&p, 0, 0, 500, 0);
    assert_eq!(r, StepOutcome::LinkActivated(b"next".to_vec()));
}

#[test]
fn background_never_blocks() {
    // Nothing in the map: every cell is background, always walkable.
    let p = page_of(b":bg-tile brick :width 4 :height 4");
    let r = resolve_step(&p, 8000, 8000, 500, 0);
    assert_eq!(r, StepOutcome::Moved((9000, 8000)));
}

#[test]
fn decode_url_with_fragment() {
    let r = decode(&b"https://x/y#3,4".to_vec()).expect("link should decode");
    assert_eq!(r.url, b"https://x/y".to_vec());
    assert_eq!(r.target, Some((3000, 4000)));
}

#[test]
fn decode_url_without_fragment() {
    let r = decode(&b"https://x/y".to_vec()).expect("link should decode");
    assert_eq!(r.url, b"https://x/y".to_vec());
    assert_eq!(r.target, None);
}

#[test]
fn decode_bad_fragment_keeps_destination() {
    let r = decode(&b"https://x/y#bad".to_vec()).expect("link should decode");
    assert_eq!(r.url, b"https://x/y".to_vec());
    assert_eq!(r.target, None);

    let r = decode(&b"https://x/y#3,zz".to_vec()).expect("link should decode");
    assert_eq!(r.url, b"https://x/y".to_vec());
    assert_eq!(r.target, None);
}

#[test]
fn decode_fractional_fragment() {
    let r = decode(&b"u#1.5,-2".to_vec()).expect("link should decode");
    assert_eq!(r.url, b"u".to_vec());
    assert_eq!(r.target, Some((1500, -2000)));
}

#[test]
fn decode_empty_destination_is_inert() {
    assert!(decode(&b"".to_vec()).is_none());
    assert!(decode(&b"#3,4".to_vec()).is_none());
}

#[test]
fn tile_registry() {
    let t = Tiles::new();
    assert_eq!(t.tiles.len(), 5);
    assert_eq!(t.lookup(&b"grass".to_vec()), Some(&Tiledef(Tileset::Town, 0, 0)));
    assert_eq!(t.lookup(&b"brick".to_vec()), Some(&Tiledef(Tileset::Town, 0, 1)));
    assert_eq!(t.lookup(&b"lamp".to_vec()), Some(&Tiledef(Tileset::Town, 0, 2)));
    assert_eq!(t.lookup(&b"sand".to_vec()), Some(&Tiledef(Tileset::Town, 2, 3)));
    assert_eq!(t.lookup(&b"well".to_vec()), Some(&Tiledef(Tileset::Town, 1, 3)));
    assert_eq!(t.lookup(&b"nope".to_vec()), None);
}
