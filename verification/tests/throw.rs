use quadboy::states::state_throw::{
    handle_throw_input, throw_range_indicator_tiles, throw_title_text, ThrowStep,
};

#[test]
fn range_indicators_ring_the_thrower() {
    assert_eq!(
        throw_range_indicator_tiles((85, 45, 0), 1),
        vec![(84, 45, 0), (85, 44, 0), (85, 46, 0), (86, 45, 0)]
    );
}

#[test]
fn range_indicators_stay_inside_the_zone() {
    assert_eq!(throw_range_indicator_tiles((80, 40, 2), 1), vec![(80, 41, 2), (81, 40, 2)]);
    assert!(throw_range_indicator_tiles((85, 45, 0), 0).is_empty());
}

#[test]
fn range_indicators_fill_the_circle() {
    let tiles = throw_range_indicator_tiles((100, 60, 1), 2);
    // offsets whose squared distance is 1, 2 or 4
    assert_eq!(tiles.len(), 12);
    assert!(tiles.contains(&(98, 60, 1)));
    assert!(tiles.contains(&(99, 59, 1)));
    assert!(!tiles.contains(&(98, 59, 1)));
    assert!(!tiles.contains(&(98, 58, 1)));
    assert!(!tiles.contains(&(100, 60, 1)));
}

#[test]
fn throw_title_shows_range() {
    assert_eq!(throw_title_text(5), "THROW ITEM - Range: 5");
}

#[test]
fn escape_cancels_the_throw() {
    assert_eq!(handle_throw_input(true, true, (10, 10, 0), (12, 11), 2, &vec![0]), ThrowStep::Cancel);
}

#[test]
fn click_in_reach_throws() {
    assert_eq!(
        handle_throw_input(false, true, (10, 10, 0), (12, 11), 2, &vec![0]),
        ThrowStep::Aim { cursor: (12, 11, 0), cursor_visible: true, throw_at: Some((12, 11, 0)) }
    );
    assert_eq!(
        handle_throw_input(false, true, (10, 10, 0), (12, 12), 2, &vec![0]),
        ThrowStep::Aim { cursor: (12, 12, 0), cursor_visible: true, throw_at: Some((12, 12, 0)) }
    );
}

#[test]
fn throws_need_reach_a_click_and_a_loaded_zone() {
    assert_eq!(
        handle_throw_input(false, true, (10, 10, 0), (13, 10), 2, &vec![0]),
        ThrowStep::Aim { cursor: (13, 10, 0), cursor_visible: false, throw_at: None }
    );
    assert_eq!(
        handle_throw_input(false, false, (10, 10, 0), (12, 11), 2, &vec![0]),
        ThrowStep::Aim { cursor: (12, 11, 0), cursor_visible: true, throw_at: None }
    );
    assert_eq!(
        handle_throw_input(false, true, (10, 10, 0), (12, 11), 2, &vec![]),
        ThrowStep::Aim { cursor: (12, 11, 0), cursor_visible: true, throw_at: None }
    );
}

#[test]
fn throws_stay_in_the_throwers_zone() {
    assert_eq!(
        handle_throw_input(false, true, (79, 10, 0), (81, 10), 2, &vec![0, 128]),
        ThrowStep::Aim { cursor: (81, 10, 0), cursor_visible: true, throw_at: None }
    );
}

#[test]
fn marked_tiles_are_reachable() {
    let player = (100, 60, 1);
    for (x, y, _) in throw_range_indicator_tiles(player, 3) {
        match handle_throw_input(false, false, player, (x, y), 3, &vec![]) {
            ThrowStep::Aim { cursor_visible, .. } => assert!(cursor_visible),
            ThrowStep::Cancel => panic!("aiming never cancels without escape"),
        }
    }
}
