use spider::Facing;
use spider::Navigator;

#[test]
fn empty_step_issues_exactly_one_fetch() {
    let mut nav = Navigator::new(b"home".to_vec());
    assert!(nav.page.is_none());
    assert!(!nav.requesting);
    let req = nav.step(0, 0);
    assert_eq!(req, Some(b"home".to_vec()));
    assert!(nav.requesting);
    // A second step before the response arrives issues nothing.
    let req = nav.step(0, 0);
    assert_eq!(req, None);
    assert!(nav.requesting);
    assert!(nav.page.is_none());
}

#[test]
fn bad_body_returns_to_empty_and_allows_retry() {
    let mut nav = Navigator::new(b"home".to_vec());
    let req = nav.step(0, 0);
    assert_eq!(req, Some(b"home".to_vec()));
    nav.on_response(b"home".to_vec(), &b"(".to_vec());
    assert!(nav.page.is_none());
    assert!(!nav.requesting);
    // A later step can retry.
    let req = nav.step(0, 0);
    assert_eq!(req, Some(b"home".to_vec()));
}

#[test]
fn good_body_installs_page_at_spawn() {
    let mut nav = Navigator::new(b"home".to_vec());
    nav.step(0, 0);
    nav.on_response(b"home".to_vec(), &b":spawn (1 1) :bg-tile sand".to_vec());
    assert!(!nav.requesting);
    let p = nav.current_page().expect("page should be installed");
    assert_eq!(p.bg_tile, b"sand".to_vec());
    // Spawn (1, 1) tiles: 16 pixels, in thousandths.
    assert_eq!(nav.pos, (16000, 16000));
}

#[test]
fn movement_updates_position_and_facing() {
    let mut nav = Navigator::new(b"home".to_vec());
    nav.step(0, 0);
    nav.on_response(b"home".to_vec(), &b"".to_vec());
    assert_eq!(nav.pos, (0, 0));
    let req = nav.step(500, 0);
    assert_eq!(req, None);
    assert_eq!(nav.pos, (1000, 0));
    assert_eq!(nav.facing, Facing::East);
    nav.step(0, -500);
    assert_eq!(nav.pos, (1000, -1000));
    assert_eq!(nav.facing, Facing::North);
    nav.step(0, 0);
    assert_eq!(nav.pos, (1000, -1000));
    assert_eq!(nav.facing, Facing::North);
}

#[test]
fn link_contact_fetches_and_reanchors() {
    let mut nav = Navigator::new(b"home".to_vec());
    nav.step(0, 0);
    nav.on_response(
        b"home".to_vec(),
        &b":spawn (1 1) :links (((2 1) \"east#3,4\"))".to_vec(),
    );
    assert_eq!(nav.pos, (16000, 16000));
    // Walk right toward the linked cell at (2, 1), anchored at 32000.
    let req = nav.step(500, 0);
    assert_eq!(req, Some(b"east".to_vec()));
    assert!(nav.requesting);
    assert!(nav.page.is_none());
    assert_eq!(nav.pending_target, Some((3000, 4000)));
    // Position is not moved on the link-activating step.
    assert_eq!(nav.pos, (16000, 16000));
    // The next page anchors the player at the override, not its own spawn.
    nav.on_response(b"east".to_vec(), &b":spawn (9 9)".to_vec());
    assert_eq!(nav.pos, (48000, 64000));
    assert_eq!(nav.pending_target, None);
    assert!(!nav.requesting);
}

#[test]
fn inert_link_moves_instead() {
    let mut nav = Navigator::new(b"home".to_vec());
    nav.step(0, 0);
    // The linked cell at the origin carries an empty destination: inert.
    nav.on_response(b"home".to_vec(), &b":links (((0 0) \"\"))".to_vec());
    let req = nav.step(500, 0);
    assert_eq!(req, None);
    assert!(!nav.requesting);
    assert!(nav.page.is_some());
    assert_eq!(nav.pos, (1000, 0));
}

#[test]
fn fragment_failure_still_fetches_without_override() {
    let mut nav = Navigator::new(b"home".to_vec());
    nav.step(0, 0);
    nav.on_response(b"home".to_vec(), &b":links (((0 0) \"east#oops\"))".to_vec());
    let req = nav.step(500, 0);
    assert_eq!(req, Some(b"east".to_vec()));
    assert_eq!(nav.pending_target, None);
    // The new page falls back to its own spawn.
    nav.on_response(b"east".to_vec(), &b":spawn (2 2)".to_vec());
    assert_eq!(nav.pos, (32000, 32000));
}

#[test]
fn walk_cycle_sprites() {
    assert_eq!(Facing::North.tile_offset_and_flip(0), (1, false));
    assert_eq!(Facing::North.tile_offset_and_flip(1), (1, true));
    assert_eq!(Facing::South.tile_offset_and_flip(1), (0, true));
    assert_eq!(Facing::West.tile_offset_and_flip(1), (3, false));
    assert_eq!(Facing::East.tile_offset_and_flip(0), (2, true));
}
