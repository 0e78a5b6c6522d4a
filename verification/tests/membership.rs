use roomcast::room::{code_is_taken, first_fresh_code, generate_join_code, unique_join_code};
use roomcast::room::{Member, RemoveStatus, Room, RoomBuildable};

fn test_room() -> Room {
    Room {
        uuid: 1,
        owner: 10,
        name: String::from("listening party"),
        join_code: String::from("ABC123"),
    }
}

#[test]
fn ownership_transfers_to_earliest_remaining() {
    let mut room = test_room();
    let mut members = vec![
        Member { uuid: 10, joined_at: 100 },
        Member { uuid: 11, joined_at: 200 },
        Member { uuid: 12, joined_at: 300 },
    ];
    let status = room.remove_user(&mut members, 10);
    match status {
        RemoveStatus::Transferred { new_owner } => assert_eq!(new_owner, 11),
        RemoveStatus::LastMember => panic!("members remain"),
    }
    assert_eq!(room.owner, 11);
    assert_eq!(members.len(), 2);
}

#[test]
fn removing_last_member_reports_last_member() {
    let mut room = test_room();
    let mut members = vec![Member { uuid: 10, joined_at: 100 }];
    let status = room.remove_user(&mut members, 10);
    assert!(matches!(status, RemoveStatus::LastMember));
    assert!(members.is_empty());
    // ownership is untouched; the caller deletes the room instead
    assert_eq!(room.owner, 10);
}

#[test]
fn tie_break_prefers_first_joiner_in_list_order() {
    let mut room = test_room();
    let mut members = vec![
        Member { uuid: 10, joined_at: 100 },
        Member { uuid: 21, joined_at: 200 },
        Member { uuid: 22, joined_at: 200 },
    ];
    let status = room.remove_user(&mut members, 10);
    match status {
        RemoveStatus::Transferred { new_owner } => assert_eq!(new_owner, 21),
        RemoveStatus::LastMember => panic!("members remain"),
    }
}

#[test]
fn remove_user_not_owner_still_picks_earliest() {
    let mut room = test_room();
    let mut members = vec![
        Member { uuid: 10, joined_at: 100 },
        Member { uuid: 11, joined_at: 200 },
    ];
    let status = room.remove_user(&mut members, 11);
    match status {
        RemoveStatus::Transferred { new_owner } => assert_eq!(new_owner, 10),
        RemoveStatus::LastMember => panic!("members remain"),
    }
}

#[test]
fn add_user_appends_member() {
    let room = test_room();
    let mut members: Vec<Member> = Vec::new();
    room.add_user(&mut members, 42, 12345);
    assert_eq!(members.len(), 1);
    assert_eq!(members[0].uuid, 42);
    assert_eq!(members[0].joined_at, 12345);
}

#[test]
fn generated_code_is_six_uppercase_alphanumerics() {
    for _ in 0..50 {
        let code = generate_join_code();
        assert_eq!(code.len(), 6);
        for c in code.chars() {
            assert!(c.is_ascii_uppercase() || c.is_ascii_digit());
        }
    }
}

#[test]
fn unique_code_avoids_existing_codes() {
    let existing = vec![String::from("AAAAAA"), String::from("BBBBBB")];
    let code = unique_join_code(&existing).expect("a fresh code");
    assert_ne!(code, existing[0]);
    assert_ne!(code, existing[1]);
    assert_eq!(code.len(), 6);
}

#[test]
fn forced_collision_triggers_regeneration() {
    // a stubbed candidate stream whose first draw collides: the
    // collision is detected and the next candidate is taken instead
    let existing = vec![String::from("ZZZZZZ")];
    let candidates = vec![String::from("ZZZZZZ"), String::from("QQQQQ1")];
    let picked = first_fresh_code(&existing, &candidates).expect("a fresh candidate");
    assert_eq!(picked, "QQQQQ1");
}

#[test]
fn all_candidates_taken_yields_none() {
    let existing = vec![String::from("ZZZZZZ")];
    let candidates = vec![String::from("ZZZZZZ"), String::from("ZZZZZZ")];
    assert!(first_fresh_code(&existing, &candidates).is_none());
}

#[test]
fn code_is_taken_detects_collision() {
    let existing = vec![String::from("ABC123")];
    assert!(code_is_taken(&existing, &String::from("ABC123")));
    assert!(!code_is_taken(&existing, &String::from("ABC124")));
}

#[test]
fn create_room_gets_fresh_code_and_owner() {
    let existing = vec![String::from("AAAAAA")];
    let room = Room::create(
        RoomBuildable { user_owner: 77, name: String::from("den") },
        &existing,
        5,
    )
    .expect("room created");
    assert_eq!(room.owner, 77);
    assert_eq!(room.uuid, 5);
    assert_eq!(room.name, "den");
    assert_eq!(room.join_code.len(), 6);
    assert_ne!(room.join_code, existing[0]);
}

#[test]
fn member_check_guards_room_actions() {
    let members = vec![
        roomcast::room::Member { uuid: 10, joined_at: 100 },
        roomcast::room::Member { uuid: 11, joined_at: 200 },
    ];
    assert!(roomcast::room::member_exists(&members, 11));
    assert!(!roomcast::room::member_exists(&members, 12));
}

#[test]
fn display_names_are_length_limited() {
    assert!(roomcast::user::name_within_limit("ada"));
    assert!(roomcast::user::name_within_limit(&"x".repeat(64)));
    assert!(!roomcast::user::name_within_limit(&"x".repeat(65)));
    // the limit counts bytes, as the stored column does
    assert!(!roomcast::user::name_within_limit(&"ü".repeat(33)));
}

#[test]
fn create_against_no_rooms_always_succeeds() {
    let existing: Vec<String> = Vec::new();
    assert!(unique_join_code(&existing).is_some());
    let room = Room::create(
        RoomBuildable { user_owner: 3, name: String::from("solo") },
        &existing,
        4,
    );
    assert!(room.is_some());
}

#[test]
fn labeling_marks_the_owner_and_carries_names() {
    let members = vec![
        Member { uuid: 10, joined_at: 100 },
        Member { uuid: 11, joined_at: 200 },
    ];
    let names = vec![Some(String::from("ada")), Some(String::from("grace"))];
    let labeled = roomcast::room::label_members(&members, &names, 11).expect("all names found");
    assert_eq!(labeled.len(), 2);
    assert_eq!(labeled[0].0.uuid, 10);
    assert_eq!(labeled[0].1, "ada");
    assert!(!labeled[0].2);
    assert_eq!(labeled[1].1, "grace");
    assert!(labeled[1].2);
}

#[test]
fn labeling_with_a_missing_user_is_a_conflict() {
    let members = vec![Member { uuid: 10, joined_at: 100 }];
    let names: Vec<Option<String>> = vec![None];
    let err = roomcast::room::label_members(&members, &names, 10).expect_err("missing name");
    assert!(matches!(err, roomcast::error::Error::Conflict(_)));
    assert_eq!(err.status_code(), 409);
}
