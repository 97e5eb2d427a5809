use chariot_client::menu_input::Chair;
use chariot_client::session::{apply_packet, is_packet_allowed, ClientAction, ClientPacket, ClientState, PlayerChoice, SoundEffect, PLAYER_SLOTS};
use chariot_client::ui_region::{RegionEvent, RegionState};
use chariot_client::ui_state::{chosen_title, effect_subtitle, lap_text, push_decimal, timer_text, voting_subtitle, voting_title, AnnouncementState};

fn report(action: &ClientAction) -> &str {
    match action {
        ClientAction::Report { text } => text.as_str(),
        _ => panic!("expected a report"),
    }
}

fn joined(state: &ClientState, player: usize) -> bool {
    state.player_choices[player].is_some()
}

#[test]
fn decimal_texts() {
    let mut s = String::from("n=");
    push_decimal(&mut s, 0);
    assert_eq!(s, "n=0");
    let mut s = String::new();
    push_decimal(&mut s, 1907);
    assert_eq!(s, "1907");
    let mut s = String::new();
    push_decimal(&mut s, u64::MAX);
    assert_eq!(s, u64::MAX.to_string());
    assert_eq!(voting_title(), "The audience is deciding your fate");
    assert_eq!(voting_subtitle(30), "They decide in 30 seconds");
    assert_eq!(chosen_title("Low gravity"), "Low gravity was chosen!");
    assert_eq!(effect_subtitle(5), "Effects will last for another 5 seconds");
}

#[test]
fn new_client_knows_nobody() {
    let s = ClientState::new();
    assert_eq!(s.player_num, PLAYER_SLOTS);
    assert_eq!(s.player_choices.len(), 4);
    assert!((0..4).all(|i| !joined(&s, i)));
}

#[test]
fn player_number_takes_server_choices_and_loads_lobby() {
    let mut s = ClientState::new();
    let others = vec![Some(PlayerChoice { chair: Some(Chair::Folding), map: None }), None, None, None];
    let acts = apply_packet(&mut s, ClientPacket::PlayerNumber { player: 2, choices: others });
    assert_eq!(s.player_num, 2);
    assert!(s.player_choices[0].as_ref().unwrap().chair == Some(Chair::Folding));
    assert!(!joined(&s, 1));
    let mine = s.player_choices[2].as_ref().unwrap();
    assert!(mine.chair.is_none() && mine.map.is_none());
    assert!(!joined(&s, 3));
    assert_eq!(acts.len(), 1);
    assert!(matches!(acts[0], ClientAction::LoadPregame));
}

#[test]
fn joining_ignores_our_own_number() {
    let mut s = ClientState::new();
    apply_packet(&mut s, ClientPacket::PlayerNumber { player: 1, choices: vec![None, None, None, None] });
    s.player_choices[1] = None;
    let acts = apply_packet(&mut s, ClientPacket::PlayerJoined { player: 1 });
    assert!(acts.is_empty());
    assert!(!joined(&s, 1));
    apply_packet(&mut s, ClientPacket::PlayerJoined { player: 3 });
    assert!(joined(&s, 3));
}

#[test]
fn chair_and_map_choices_update_one_part() {
    let mut s = ClientState::new();
    apply_packet(&mut s, ClientPacket::PlayerJoined { player: 0 });
    let acts = apply_packet(&mut s, ClientPacket::PlayerMapChoice { player: 0, map: "track".to_string() });
    assert_eq!(acts.len(), 1);
    assert_eq!(report(&acts[0]), "Player #0 has voted for map track!");
    let acts = apply_packet(&mut s, ClientPacket::PlayerChairChoice { player: 0, chair: Chair::Beanbag });
    let c = s.player_choices[0].as_ref().unwrap();
    assert!(c.chair == Some(Chair::Beanbag));
    assert_eq!(c.map.as_deref(), Some("track"));
    assert_eq!(acts.len(), 1);
    assert!(matches!(acts[0], ClientAction::DisplayChair { player: 0, chair: Chair::Beanbag }));
}

#[test]
fn race_packets() {
    let mut s = ClientState::new();
    let acts = apply_packet(&mut s, ClientPacket::PlacementUpdate { place: 7 });
    assert!(matches!(acts[..], [ClientAction::ShowPlace { place: 1 }]));
    let acts = apply_packet(&mut s, ClientPacket::PlacementUpdate { place: 3 });
    assert!(matches!(acts[..], [ClientAction::ShowPlace { place: 3 }]));
    let acts = apply_packet(&mut s, ClientPacket::GameStart { countdown_ms: 3000 });
    assert!(matches!(
        acts[..],
        [
            ClientAction::ShowHud,
            ClientAction::PlaySound { effect: SoundEffect::GameStart },
            ClientAction::SetGameStart { countdown_ms: 3000 }
        ]
    ));
    let acts = apply_packet(&mut s, ClientPacket::LapUpdate { lap: 2 });
    assert_eq!(report(&acts[0]), "I am now on lap 2!");
    assert!(matches!(acts[1], ClientAction::PlaySound { effect: SoundEffect::NextLap }));
    let acts = apply_packet(&mut s, ClientPacket::PowerupPickup);
    assert_eq!(report(&acts[0]), "we got a powerup!");
    let acts = apply_packet(&mut s, ClientPacket::PlayerReadyStatus { player: 3, ready: true });
    assert_eq!(report(&acts[0]), "Player #3 is now ready!");
    let acts = apply_packet(&mut s, ClientPacket::PlayerReadyStatus { player: 12, ready: false });
    assert_eq!(report(&acts[0]), "Player #12 is not ready!");
    let acts = apply_packet(&mut s, ClientPacket::AllDone { final_placements: vec![2, 1, 3, 4] });
    assert!(matches!(acts[0], ClientAction::PlaySound { effect: SoundEffect::GameEnd }));
    match &acts[1] {
        ClientAction::ReportResults { final_placements } => assert_eq!(final_placements, &vec![2, 1, 3, 4]),
        _ => panic!("expected results"),
    }
    let acts = apply_packet(&mut s, ClientPacket::StartNextGame);
    assert!(matches!(acts[..], [ClientAction::LoadPregame]));
}

#[test]
fn vote_packets_announce() {
    let mut s = ClientState::new();
    let acts = apply_packet(
        &mut s,
        ClientPacket::VotingStarted { prompt: "Pick".to_string(), vote_ends_in_ms: 15_500 },
    );
    assert_eq!(acts.len(), 3);
    match &acts[0] {
        ClientAction::Announce { title, subtitle } => {
            assert_eq!(title, "The audience is deciding your fate");
            assert_eq!(subtitle, "They decide in 15 seconds");
        }
        _ => panic!("expected an announcement"),
    }
    match &acts[1] {
        ClientAction::SetAnnouncement { announcement: AnnouncementState::VotingInProgress { prompt, vote_ends_in_ms } } => {
            assert_eq!(prompt, "Pick");
            assert_eq!(*vote_ends_in_ms, 15_500);
        }
        _ => panic!("expected the voting state"),
    }
    assert!(matches!(acts[2], ClientAction::PlaySound { effect: SoundEffect::InteractionVoteStart }));
    let acts = apply_packet(
        &mut s,
        ClientPacket::InteractionActivate {
            prompt: "Pick".to_string(),
            decision: "Ice".to_string(),
            effect_ends_in_ms: 10_000,
        },
    );
    match &acts[0] {
        ClientAction::Announce { title, subtitle } => {
            assert_eq!(title, "Ice was chosen!");
            assert_eq!(subtitle, "Effects will last for another 10 seconds");
        }
        _ => panic!("expected an announcement"),
    }
    match &acts[1] {
        ClientAction::SetAnnouncement { announcement: AnnouncementState::VoteActiveTime { decision, .. } } => {
            assert_eq!(decision, "Ice");
        }
        _ => panic!("expected the active state"),
    }
    assert!(matches!(acts[2], ClientAction::PlaySound { effect: SoundEffect::InteractionChosen }));
}

#[test]
fn region_hover_click_release() {
    let mut r = RegionState::new();
    assert!(r.set_hovering(false).is_none());
    assert!(r.set_hovering(true) == Some(RegionEvent::Enter));
    assert!(r.set_hovering(true).is_none());
    assert!(r.is_hovering);
    assert!(r.set_active(false).is_none());
    assert!(!r.is_active);
    assert!(r.set_active(true) == Some(RegionEvent::Click));
    assert!(r.is_active);
    assert!(r.set_hovering(false) == Some(RegionEvent::Exit));
    assert!(r.is_active);
    assert!(r.set_inactive() == Some(RegionEvent::Release));
    assert!(r.set_inactive().is_none());
    assert!(!r.is_active);
}

#[test]
fn packet_checks() {
    let mut s = ClientState::new();
    assert!(!is_packet_allowed(&s, &ClientPacket::PlayerChairChoice { player: 1, chair: Chair::Swivel }));
    assert!(!is_packet_allowed(&s, &ClientPacket::PlayerMapChoice { player: 9, map: String::new() }));
    assert!(!is_packet_allowed(&s, &ClientPacket::PlayerNumber { player: 4, choices: vec![None, None, None, None] }));
    assert!(!is_packet_allowed(&s, &ClientPacket::PlayerNumber { player: 0, choices: vec![None] }));
    assert!(is_packet_allowed(&s, &ClientPacket::PlayerJoined { player: 4 }));
    assert!(!is_packet_allowed(&s, &ClientPacket::PlayerJoined { player: 5 }));
    apply_packet(&mut s, ClientPacket::PlayerJoined { player: 1 });
    assert!(is_packet_allowed(&s, &ClientPacket::PlayerChairChoice { player: 1, chair: Chair::Swivel }));
    assert!(is_packet_allowed(&s, &ClientPacket::StartNextGame));
}

#[test]
fn hud_texts() {
    assert_eq!(timer_text(125, 42), "02:05:042");
    assert_eq!(timer_text(0, 0), "00:00:000");
    assert_eq!(timer_text(6000, 999), "100:00:999");
    assert_eq!(lap_text(1, 3), "lap 1/3");
    assert_eq!(lap_text(0, 12), "lap 0/12");
}
