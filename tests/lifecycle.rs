use monster_defs::jumping::{allow_jumpers_to_jump, allow_kinematic_jumpers_to_jump, Jumper};
use monster_defs::shared::{loaded_files, GameState, LoadStatus};

#[test]
fn starts_fetching() {
    assert_eq!(GameState::default(), GameState::LoadingFromDisk);
}

#[test]
fn waits_while_any_file_is_pending() {
    let statuses = vec![LoadStatus::Loaded, LoadStatus::Pending, LoadStatus::Failed];
    assert_eq!(GameState::LoadingFromDisk.on_poll(&statuses), GameState::LoadingFromDisk);
}

#[test]
fn links_once_every_file_settled() {
    let statuses = vec![LoadStatus::Loaded, LoadStatus::Failed, LoadStatus::Loaded];
    assert_eq!(GameState::LoadingFromDisk.on_poll(&statuses), GameState::AddingToDatabase);
    assert_eq!(GameState::LoadingFromDisk.on_poll(&Vec::new()), GameState::AddingToDatabase);
}

#[test]
fn build_leads_to_playing() {
    assert_eq!(GameState::AddingToDatabase.on_built(), GameState::Playing);
    assert_eq!(GameState::Playing.on_built(), GameState::Playing);
    assert_eq!(GameState::LoadingFromDisk.on_built(), GameState::LoadingFromDisk);
}

#[test]
fn no_state_is_entered_again() {
    let statuses = vec![LoadStatus::Loaded];
    assert_eq!(GameState::Playing.on_poll(&statuses), GameState::Playing);
    assert_eq!(GameState::AddingToDatabase.on_poll(&statuses), GameState::AddingToDatabase);
}

#[test]
fn failed_files_are_left_out() {
    let statuses = vec![LoadStatus::Failed, LoadStatus::Loaded, LoadStatus::Failed, LoadStatus::Loaded];
    assert_eq!(loaded_files(&statuses), vec![1, 3]);
}

#[test]
fn first_jump_point_with_a_contact_pair_decides() {
    let mut jumper = Jumper::default();
    assert!(!jumper.has_ground_contact);
    allow_jumpers_to_jump(&mut jumper, &vec![None, Some(true), Some(false)]);
    assert!(jumper.has_ground_contact);
    allow_jumpers_to_jump(&mut jumper, &vec![Some(false), Some(true)]);
    assert!(!jumper.has_ground_contact);
    allow_jumpers_to_jump(&mut jumper, &vec![Some(true)]);
    allow_jumpers_to_jump(&mut jumper, &vec![None, None]);
    assert!(!jumper.has_ground_contact);
}

#[test]
fn kinematic_jumper_follows_controller() {
    let mut jumper = Jumper::default();
    allow_kinematic_jumpers_to_jump(&mut jumper, true);
    assert!(jumper.has_ground_contact);
    allow_kinematic_jumpers_to_jump(&mut jumper, false);
    assert!(!jumper.has_ground_contact);
}
