use spider::Page;
use spider::SValue;

fn parse_ok(text: &[u8]) -> Page {
    let body: Vec<u8> = text.to_vec();
    let url: Vec<u8> = b"test".to_vec();
    Page::parse(&body, url).ok().expect("document should parse")
}

#[test]
fn defaults_when_no_recognized_keys() {
    let p = parse_ok(b"");
    assert_eq!(p.spawn, (0, 0));
    assert_eq!(p.width, 0);
    assert_eq!(p.height, 0);
    assert_eq!(p.bg_tile, b"grass".to_vec());
    assert_eq!(p.map.len(), 0);
    assert_eq!(p.links.len(), 0);
    assert_eq!(p.entities.len(), 0);
    assert_eq!(p.tiles.len(), 0);

    let p = parse_ok(b":other (1 2) stray 7");
    assert_eq!(p.spawn, (0, 0));
    assert_eq!(p.width, 0);
    assert_eq!(p.height, 0);
    assert_eq!(p.bg_tile, b"grass".to_vec());
    assert_eq!(p.map.len(), 0);
    assert_eq!(p.links.len(), 0);
}

#[test]
fn map_two_entries_exactly() {
    let p = parse_ok(b":map (((0 0) grass) ((1 0) brick))");
    assert_eq!(p.map.len(), 2);
    assert_eq!(p.map[0], ((0, 0), b"grass".to_vec()));
    assert_eq!(p.map[1], ((1, 0), b"brick".to_vec()));
    assert_eq!(p.links.len(), 0);
}

#[test]
fn map_later_entry_replaces_earlier() {
    let p = parse_ok(b":map (((0 0) grass) ((0 0) brick))");
    assert_eq!(p.map.len(), 1);
    assert_eq!(p.map[0], ((0, 0), b"brick".to_vec()));
}

#[test]
fn malformed_entries_are_skipped() {
    let p = parse_ok(b":map (((0 0) grass) (7 brick) ((1) sand) ((2 2) \"str\") ((3 3) well))");
    assert_eq!(p.map.len(), 2);
    assert_eq!(p.map[0], ((0, 0), b"grass".to_vec()));
    assert_eq!(p.map[1], ((3, 3), b"well".to_vec()));
}

#[test]
fn spawn_and_dimensions() {
    let p = parse_ok(b":spawn (2.5 -1.25) :width 7 :height 3");
    assert_eq!(p.spawn, (2500, -1250));
    assert_eq!(p.width, 7);
    assert_eq!(p.height, 3);
}

#[test]
fn fractional_or_negative_dimension_defaults_to_zero() {
    let p = parse_ok(b":width 7.5 :height -3");
    assert_eq!(p.width, 0);
    assert_eq!(p.height, 0);
}

#[test]
fn bg_tile_symbol() {
    let p = parse_ok(b":bg-tile sand");
    assert_eq!(p.bg_tile, b"sand".to_vec());
    let p = parse_ok(b":bg-tile \"sand\"");
    assert_eq!(p.bg_tile, b"grass".to_vec());
}

#[test]
fn links_entries_are_strings() {
    let p = parse_ok(b":links (((2 1) \"next#3,4\") ((0 0) plain))");
    assert_eq!(p.links.len(), 1);
    assert_eq!(p.links[0], ((2, 1), b"next#3,4".to_vec()));
}

#[test]
fn coordinates_truncate_toward_zero() {
    let p = parse_ok(b":map (((1.9 -1.9) brick))");
    assert_eq!(p.map.len(), 1);
    assert_eq!(p.map[0], ((1, -1), b"brick".to_vec()));
}

#[test]
fn ill_formed_documents_fail() {
    let url: Vec<u8> = b"u".to_vec();
    assert!(Page::parse(&b"(".to_vec(), url.clone()).is_err());
    assert!(Page::parse(&b")".to_vec(), url.clone()).is_err());
    assert!(Page::parse(&b":map (((0 0) grass)".to_vec(), url.clone()).is_err());
    assert!(Page::parse(&b"\"unclosed".to_vec(), url).is_err());
}

#[test]
fn url_is_kept_verbatim() {
    let body: Vec<u8> = b":width 1".to_vec();
    let url: Vec<u8> = b"https://example/room".to_vec();
    let p = Page::parse(&body, url.clone()).ok().unwrap();
    assert_eq!(p.url, url);
}

#[test]
fn tree_is_retained() {
    let p = parse_ok(b":width 1");
    match &p.tree {
        SValue::List(items) => assert_eq!(items.len(), 2),
        _ => panic!("top level should be a list"),
    }
}

#[test]
fn dimension_boundaries() {
    let p = parse_ok(b":width 4294967295");
    assert_eq!(p.width, u32::MAX);
    let p = parse_ok(b":width 4294967296");
    assert_eq!(p.width, 0);
}

#[test]
fn deep_nesting_parses() {
    let p = parse_ok(b"((((((well))))))");
    assert_eq!(p.spawn, (0, 0));
    let body: Vec<u8> = b"((((((".to_vec();
    assert!(Page::parse(&body, b"u".to_vec()).is_err());
}

#[test]
fn number_atoms() {
    let p = parse_ok(b":spawn (3 4)");
    assert_eq!(p.spawn, (3000, 4000));
    let p = parse_ok(b":spawn (-0.0005 0.12345)");
    assert_eq!(p.spawn, (0, 123));
    let p = parse_ok(b":spawn (1e3 2)");
    assert_eq!(p.spawn, (0, 0));
}
