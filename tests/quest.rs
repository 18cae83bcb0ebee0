use mail_platformer::entities::{
    answer_prompt, decide, draw_entities, get_entities, has_tag, is_within, open_door, Behavior, DrawType, Entity, Prompt,
    Shown, Sprite,
};
use mail_platformer::player::{Player, Tag};
use mail_platformer::world::{get_tile, Chunk, World};

fn marker_world() -> World {
    let mut near = Chunk { x: 0, y: 0, tiles: vec![0; 256] };
    near.tiles[2 + 2 * 16] = 65;
    let mut far = Chunk { x: 256, y: 0, tiles: vec![0; 256] };
    far.tiles[0] = 129;
    far.tiles[4] = 613;
    far.tiles[8] = 289;
    far.tiles[12] = 385;
    let mut door = Chunk { x: 64, y: 0, tiles: vec![0; 256] };
    door.tiles[15 + 16] = 5;
    door.tiles[15 + 32] = 5;
    World {
        collision: vec![door],
        one_way_collision: Vec::new(),
        details: Vec::new(),
        background: Vec::new(),
        interactable: vec![near, far],
    }
}

fn player_at_pixel(x: i64, y: i64) -> Player {
    let mut p = Player::new();
    p.x = x * 100;
    p.y = y * 100;
    p
}

#[test]
fn entities_are_placed_at_markers() {
    let w = marker_world();
    let es = get_entities(&w).unwrap();
    assert_eq!(es.len(), 21);
    assert_eq!(es[0].behavior, Behavior::MailMarker);
    assert_eq!((es[0].x, es[0].y), (20, 20));
    assert_eq!((es[3].x, es[3].y), (16, 32));
    assert_eq!(es[5].behavior, Behavior::TonyMarker);
    assert_eq!((es[5].x, es[5].y), (2052, 4));
    assert_eq!((es[14].x, es[14].y), (2052 + 64, 24));
    assert_eq!(es[20].behavior, Behavior::MilkOffer);
    assert!(matches!(es[0].draw_type, DrawType::Animation(Sprite::PointOfInterest)));
    assert!(matches!(es[10].draw_type, DrawType::Nothing));
    match &es[1].draw_type {
        DrawType::TextBubble(t) => assert!(t.starts_with("hi!\n")),
        _ => panic!("expected a text bubble"),
    }
    assert!(es.iter().all(|e| e.anim_frame == 0));
}

#[test]
fn entities_need_every_marker() {
    let mut w = marker_world();
    w.interactable[1].tiles[4] = 0;
    assert!(get_entities(&w).is_none());
}

#[test]
fn mail_quest_scenario() {
    let w = marker_world();
    let mut es = get_entities(&w).unwrap();
    let mut p = player_at_pixel(100, 16);
    let shown = draw_entities(&mut es, &mut p, false);
    assert!(shown[0].visible);
    assert!(!shown[1].visible);
    assert!(!has_tag(&p.tags, Tag::HasMail));

    // within 32 pixels, without pressing accept
    let mut close_by = player_at_pixel(40, 16);
    close_by.tags = p.tags.clone();
    let shown = draw_entities(&mut es, &mut close_by, false);
    assert!(!shown[0].visible);
    assert!(shown[1].visible);
    assert_eq!(shown[1].prompt, Some(Prompt::TakeMail));
    assert!(!has_tag(&close_by.tags, Tag::HasMail));

    // pressing accept grants the mail, and the next entity sees it at once
    let shown = draw_entities(&mut es, &mut close_by, true);
    assert!(has_tag(&close_by.tags, Tag::HasMail));
    assert!(shown[1].visible);
    assert!(shown[2].visible);

    // holding the mail, far away: the first two entities are hidden
    let mut away = player_at_pixel(100, 16);
    away.tags = close_by.tags.clone();
    let shown = draw_entities(&mut es, &mut away, false);
    assert!(!shown[0].visible);
    assert!(!shown[1].visible);
}

#[test]
fn pass_is_deterministic() {
    let w = marker_world();
    let es = get_entities(&w).unwrap();
    let run = |tags: Vec<Tag>| {
        let mut es2: Vec<Entity> = es
            .iter()
            .map(|e| Entity { x: e.x, y: e.y, behavior: e.behavior, draw_type: e.behavior.draw_type(), anim_frame: e.anim_frame })
            .collect();
        let mut p = player_at_pixel(30, 20);
        p.tags = tags;
        let shown = draw_entities(&mut es2, &mut p, true);
        (shown, p.tags)
    };
    let a = run(vec![Tag::HasBirdFood]);
    let b = run(vec![Tag::HasBirdFood]);
    assert_eq!(a.0, b.0);
    assert_eq!(a.1, b.1);
    // the same flags in another order and with a repeat give the same verdicts
    let c = run(vec![Tag::HasBirdFood, Tag::HasBirdFood]);
    assert_eq!(a.0, c.0);
}

#[test]
fn henry_reward_offers_carrot_and_rewinds() {
    let tags = vec![Tag::MailHasBeenSent];
    let (visible, pushed, anim, prompt) = decide(Behavior::HenryReward, 3750, &tags, false, false, false);
    assert!(visible);
    assert_eq!(pushed, vec![Tag::HasReturnedToHenry, Tag::HenryHasOfferedCarrot]);
    assert_eq!(anim, 3700);
    assert_eq!(prompt, None);
    let tags = vec![Tag::HasReturnedToHenry];
    let (visible, pushed, anim, _) = decide(Behavior::HenryReward, 0, &tags, true, true, false);
    assert!(!visible);
    assert!(pushed.is_empty());
    assert_eq!(anim, 0);
}

#[test]
fn birthday_scene_sends_mail_after_a_while() {
    let tags = vec![Tag::HasGivenGift];
    let (visible, pushed, _, _) = decide(Behavior::BirthdayCelebration, 650, &tags, false, false, false);
    assert!(visible);
    assert!(pushed.is_empty());
    let (visible, pushed, _, _) = decide(Behavior::BirthdayCelebration, 651, &tags, false, false, false);
    assert!(!visible);
    assert_eq!(pushed, vec![Tag::MailHasBeenSent]);
}

#[test]
fn tony_opens_the_door_and_it_clears() {
    let mut w = marker_world();
    let tags = vec![Tag::HasFedBird];
    let (visible, pushed, _, _) = decide(Behavior::TonyThanks, 0, &tags, true, true, false);
    assert!(visible);
    assert_eq!(pushed, vec![Tag::TonyHasOpenedDoor]);
    let mut p = Player::new();
    open_door(&mut w, &p);
    assert_eq!(get_tile(&w.collision, 79, 1), 5);
    p.tags = pushed;
    open_door(&mut w, &p);
    assert_eq!(get_tile(&w.collision, 79, 1), 0);
    assert_eq!(get_tile(&w.collision, 79, 2), 0);
}

#[test]
fn prompts_grant_their_flags() {
    let tags = vec![Tag::HasBirdFood];
    let (visible, pushed, _, prompt) = decide(Behavior::BirdFeeder, 0, &tags, true, true, true);
    assert!(!visible);
    assert_eq!(prompt, Some(Prompt::FeedBird));
    assert_eq!(pushed, vec![Tag::HasFedBird]);
    let (_, pushed, _, prompt) = decide(Behavior::BirdFeeder, 0, &tags, true, false, true);
    assert_eq!(prompt, None);
    assert!(pushed.is_empty());
    assert_eq!(Prompt::GiveMilk.grants(), Tag::SelectingGift);
    assert_eq!(Prompt::SelectGift.grants(), Tag::HasGift);
    assert_eq!(Prompt::TakeMail.text(), "e: take mail");
    let mut p = Player::new();
    answer_prompt(&mut p, Prompt::SelectGift, false);
    assert!(p.tags.is_empty());
    answer_prompt(&mut p, Prompt::SelectGift, true);
    assert_eq!(p.tags, vec![Tag::HasGift]);
}

#[test]
fn talking_radius_is_inclusive() {
    assert!(is_within(0, 0, 3200, 0, 32));
    assert!(!is_within(0, 0, 3201, 0, 32));
    assert!(is_within(10, 10, 1000 + 1900, 1000 + 2500, 32));
    assert!(!is_within(10, 10, 1000 + 1920, 1000 + 2561, 32));
}

#[test]
fn shown_entity_animates() {
    let mut e = Entity { x: 0, y: 0, behavior: Behavior::Bird, draw_type: DrawType::Nothing, anim_frame: 0 };
    let mut p = Player::new();
    let s = e.draw(&mut p, false);
    assert_eq!(s, Shown { visible: true, prompt: None, time: 0 });
    assert_eq!(e.anim_frame, 16);
    p.tags.push(Tag::HasFedBird);
    let s = e.draw(&mut p, false);
    assert!(!s.visible);
    assert_eq!(e.anim_frame, 16);
}
