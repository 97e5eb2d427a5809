use vstd::prelude::*;
use vstd::string::StringExecFns;

use crate::menu_input::Chair;
use crate::ui_state::{
    chosen_title, decimal, displayed_place, effect_subtitle, push_decimal, voting_subtitle, voting_title,
    AnnouncementState,
};

verus! {

/// The number of player slots in a game.
pub const PLAYER_SLOTS: usize = 4;

/// The sound effects the server can ask for.
#[derive(PartialEq, Eq, Structural, Clone, Copy)]
pub enum SoundEffect {
    EnterChairacterSelect,
    SelectChairacter,
    ReadyUp,
    GameStart,
    NextLap,
    GameEnd,
    PlayerCollision,
    TerrainCollision,
    InteractionVoteStart,
    InteractionChosen,
}

/// What a player picked in the lobby; `None` until picked.
pub struct PlayerChoice {
    pub chair: Option<Chair>,
    pub map: Option<String>,
}

/// The choice of a player who has just joined: nothing picked yet.
pub open spec fn fresh_choice() -> PlayerChoice {
    PlayerChoice { chair: None, map: None }
}

/// A packet from the server. Durations are in milliseconds; the locations
/// of an entity update stay with the caller, which draws them.
pub enum ClientPacket {
    PlayerNumber { player: usize, choices: Vec<Option<PlayerChoice>> },
    PlayerJoined { player: usize },
    PlayerChairChoice { player: usize, chair: Chair },
    PlayerMapChoice { player: usize, map: String },
    PlayerReadyStatus { player: usize, ready: bool },
    LoadGame { map: String },
    EntityUpdate,
    PlacementUpdate { place: u8 },
    LapUpdate { lap: u8 },
    GameStart { countdown_ms: u64 },
    PowerupPickup,
    VotingStarted { prompt: String, vote_ends_in_ms: u64 },
    InteractionActivate { prompt: String, decision: String, effect_ends_in_ms: u64 },
    SoundEffectEvent { effect: SoundEffect },
    AllDone { final_placements: Vec<u8> },
    StartNextGame,
}

/// What the client does in answer to a packet, in order.
pub enum ClientAction {
    /// Show the lobby.
    LoadPregame,
    /// Show the chair a player picked.
    DisplayChair { player: usize, chair: Chair },
    /// Load the map, tell the server it is loaded and start the race music.
    LoadGame { map: String },
    /// Move the players to the locations the packet carried.
    UpdateLocations,
    /// Show the player's place.
    ShowPlace { place: u8 },
    PlaySound { effect: SoundEffect },
    /// Show the race HUD.
    ShowHud,
    /// The race starts `countdown_ms` milliseconds from now.
    SetGameStart { countdown_ms: u64 },
    /// Show an announcement with this title and subtitle.
    Announce { title: String, subtitle: String },
    SetAnnouncement { announcement: AnnouncementState },
    /// Report the final placements of the game.
    ReportResults { final_placements: Vec<u8> },
    /// Report a line of text to the player.
    Report { text: String },
}

/// What the client knows of the game: its own player number (the slot
/// count while it has none) and each slot's choices.
pub struct ClientState {
    pub player_num: usize,
    pub player_choices: Vec<Option<PlayerChoice>>,
}

impl ClientState {
    /// One entry of choices per player slot.
    pub open spec fn wf(&self) -> bool {
        self.player_choices@.len() == PLAYER_SLOTS
    }

    /// A client that has no player number and knows of no player.
    pub fn new() -> (s: Self)
        ensures
            s.wf(),
            s.player_num == PLAYER_SLOTS,
            s.player_choices@ == Seq::new(PLAYER_SLOTS as nat, |i: int| None::<PlayerChoice>),
    {
        let mut player_choices: Vec<Option<PlayerChoice>> = Vec::new();
        let mut i: usize = 0;
        while i < PLAYER_SLOTS
            invariant
                i <= PLAYER_SLOTS,
                player_choices@ == Seq::new(i as nat, |j: int| None::<PlayerChoice>),
            decreases PLAYER_SLOTS - i,
        {
            player_choices.push(None);
            i = i + 1;
            assert(player_choices@ =~= Seq::new(i as nat, |j: int| None::<PlayerChoice>));
        }
        ClientState { player_num: PLAYER_SLOTS, player_choices }
    }
}

/// The packets a client in state `(num, choices)` can handle: player
/// numbers name a slot, and a chair or map choice comes from a player the
/// client knows of.
pub open spec fn packet_allowed(num: usize, choices: Seq<Option<PlayerChoice>>, p: ClientPacket) -> bool {
    match p {
        ClientPacket::PlayerNumber { player, choices: given } => player < PLAYER_SLOTS && given@.len()
            == PLAYER_SLOTS,
        ClientPacket::PlayerJoined { player } => player == num || player < PLAYER_SLOTS,
        ClientPacket::PlayerChairChoice { player, .. } => player < PLAYER_SLOTS && choices[player as int] is Some,
        ClientPacket::PlayerMapChoice { player, .. } => player < PLAYER_SLOTS && choices[player as int] is Some,
        _ => true,
    }
}

/// The player number after packet `p`.
pub open spec fn next_player_num(num: usize, p: ClientPacket) -> usize {
    match p {
        ClientPacket::PlayerNumber { player, .. } => player,
        _ => num,
    }
}

/// The players' choices after packet `p`: a new player number brings the
/// server's choices with our own slot fresh; a player joining other than
/// us gets a fresh slot; a chair or map choice replaces that part of the
/// player's choice.
pub open spec fn next_choices(num: usize, choices: Seq<Option<PlayerChoice>>, p: ClientPacket) -> Seq<
    Option<PlayerChoice>,
> {
    match p {
        ClientPacket::PlayerNumber { player, choices: given } => given@.update(
            player as int,
            Some(fresh_choice()),
        ),
        ClientPacket::PlayerJoined { player } => if player != num {
            choices.update(player as int, Some(fresh_choice()))
        } else {
            choices
        },
        ClientPacket::PlayerChairChoice { player, chair } => choices.update(
            player as int,
            Some(PlayerChoice { chair: Some(chair), map: choices[player as int]->Some_0.map }),
        ),
        ClientPacket::PlayerMapChoice { player, map } => choices.update(
            player as int,
            Some(PlayerChoice { chair: choices[player as int]->Some_0.chair, map: Some(map) }),
        ),
        _ => choices,
    }
}

/// The actions of packet `p`, in order.
pub open spec fn actions_match(p: ClientPacket, acts: Seq<ClientAction>) -> bool {
    match p {
        ClientPacket::PlayerNumber { .. } => acts == seq![ClientAction::LoadPregame],
        ClientPacket::PlayerChairChoice { player, chair } => acts == seq![
            ClientAction::DisplayChair { player, chair },
        ],
        ClientPacket::LoadGame { map } => acts == seq![ClientAction::LoadGame { map }],
        ClientPacket::EntityUpdate => acts == seq![ClientAction::UpdateLocations],
        ClientPacket::PlacementUpdate { place } => acts == seq![
            ClientAction::ShowPlace { place: if place > 4 { 1 } else { place } },
        ],
        ClientPacket::PlayerMapChoice { player, map } => {
            &&& acts.len() == 1
            &&& acts[0] matches ClientAction::Report { text }
            &&& text@ == "Player #"@ + decimal(player as nat) + " has voted for map "@ + map@ + "!"@
        },
        ClientPacket::PlayerReadyStatus { player, ready } => {
            &&& acts.len() == 1
            &&& acts[0] matches ClientAction::Report { text }
            &&& text@ == "Player #"@ + decimal(player as nat) + " is no"@ + (if ready {
                "w"@
            } else {
                "t"@
            }) + " ready!"@
        },
        ClientPacket::LapUpdate { lap } => {
            &&& acts.len() == 2
            &&& acts[0] matches ClientAction::Report { text }
            &&& text@ == "I am now on lap "@ + decimal(lap as nat) + "!"@
            &&& acts[1] == ClientAction::PlaySound { effect: SoundEffect::NextLap }
        },
        ClientPacket::PowerupPickup => {
            &&& acts.len() == 1
            &&& acts[0] matches ClientAction::Report { text }
            &&& text@ == "we got a powerup!"@
        },
        ClientPacket::GameStart { countdown_ms } => acts == seq![
            ClientAction::ShowHud,
            ClientAction::PlaySound { effect: SoundEffect::GameStart },
            ClientAction::SetGameStart { countdown_ms },
        ],
        ClientPacket::VotingStarted { prompt, vote_ends_in_ms } => {
            &&& acts.len() == 3
            &&& acts[0] matches ClientAction::Announce { title, subtitle }
            &&& title@ == "The audience is deciding your fate"@
            &&& subtitle@ == "They decide in "@ + decimal((vote_ends_in_ms / 1000) as nat) + " seconds"@
            &&& acts[1] == ClientAction::SetAnnouncement {
                announcement: AnnouncementState::VotingInProgress { prompt, vote_ends_in_ms },
            }
            &&& acts[2] == ClientAction::PlaySound { effect: SoundEffect::InteractionVoteStart }
        },
        ClientPacket::InteractionActivate { prompt, decision, effect_ends_in_ms } => {
            &&& acts.len() == 3
            &&& acts[0] matches ClientAction::Announce { title, subtitle }
            &&& title@ == decision@ + " was chosen!"@
            &&& subtitle@ == "Effects will last for another "@ + decimal((effect_ends_in_ms / 1000) as nat)
                + " seconds"@
            &&& acts[1] == ClientAction::SetAnnouncement {
                announcement: AnnouncementState::VoteActiveTime { prompt, decision, effect_ends_in_ms },
            }
            &&& acts[2] == ClientAction::PlaySound { effect: SoundEffect::InteractionChosen }
        },
        ClientPacket::SoundEffectEvent { effect } => acts == seq![ClientAction::PlaySound { effect }],
        ClientPacket::AllDone { final_placements } => acts == seq![
            ClientAction::PlaySound { effect: SoundEffect::GameEnd },
            ClientAction::ReportResults { final_placements },
        ],
        ClientPacket::StartNextGame => acts == seq![ClientAction::LoadPregame],
        _ => acts == Seq::<ClientAction>::empty(),
    }
}

fn map_vote_text(player: usize, map: &str) -> (t: String)
    ensures
        t@ == "Player #"@ + decimal(player as nat) + " has voted for map "@ + map@ + "!"@,
{
    let mut t = <String as StringExecFns>::from_str("Player #");
    push_decimal(&mut t, player as u64);
    t.append(" has voted for map ");
    t.append(map);
    t.append("!");
    t
}

fn ready_text(player: usize, ready: bool) -> (t: String)
    ensures
        t@ == "Player #"@ + decimal(player as nat) + " is no"@ + (if ready {
            "w"@
        } else {
            "t"@
        }) + " ready!"@,
{
    let mut t = <String as StringExecFns>::from_str("Player #");
    push_decimal(&mut t, player as u64);
    t.append(" is no");
    t.append(if ready { "w" } else { "t" });
    t.append(" ready!");
    t
}

fn lap_report_text(lap: u8) -> (t: String)
    ensures
        t@ == "I am now on lap "@ + decimal(lap as nat) + "!"@,
{
    let mut t = <String as StringExecFns>::from_str("I am now on lap ");
    push_decimal(&mut t, lap as u64);
    t.append("!");
    t
}

/// Whether the client can handle `packet` (see `packet_allowed`).
pub fn is_packet_allowed(state: &ClientState, packet: &ClientPacket) -> (r: bool)
    requires
        state.wf(),
    ensures
        r == packet_allowed(state.player_num, state.player_choices@, *packet),
{
    match packet {
        ClientPacket::PlayerNumber { player, choices } => *player < PLAYER_SLOTS && choices.len() == PLAYER_SLOTS,
        ClientPacket::PlayerJoined { player } => *player == state.player_num || *player < PLAYER_SLOTS,
        ClientPacket::PlayerChairChoice { player, .. } => *player < PLAYER_SLOTS && state.player_choices[*player].is_some(),
        ClientPacket::PlayerMapChoice { player, .. } => *player < PLAYER_SLOTS && state.player_choices[*player].is_some(),
        _ => true,
    }
}

/// The player a lobby packet is about.
pub open spec fn packet_player(p: ClientPacket) -> int {
    match p {
        ClientPacket::PlayerNumber { player, .. } => player as int,
        ClientPacket::PlayerJoined { player } => player as int,
        ClientPacket::PlayerChairChoice { player, .. } => player as int,
        ClientPacket::PlayerMapChoice { player, .. } => player as int,
        ClientPacket::PlayerReadyStatus { player, .. } => player as int,
        _ => -1,
    }
}

/// An entity update asks for exactly one thing: moving the players.
pub proof fn lemma_entity_update_moves_players(acts: Seq<ClientAction>)
    requires
        actions_match(ClientPacket::EntityUpdate, acts),
    ensures
        acts == seq![ClientAction::UpdateLocations],
{
}

/// A map choice changes only the map part of that player's choice, and a
/// chair choice only the chair part; every other slot stays as it was.
pub proof fn lemma_choice_parts(num: usize, choices: Seq<Option<PlayerChoice>>, p: ClientPacket)
    requires
        choices.len() == PLAYER_SLOTS,
        packet_allowed(num, choices, p),
        p is PlayerMapChoice || p is PlayerChairChoice,
    ensures
        next_choices(num, choices, p).len() == PLAYER_SLOTS,
        next_choices(num, choices, p)[packet_player(p)] is Some,
        p matches ClientPacket::PlayerMapChoice { map, .. } ==> next_choices(num, choices, p)[packet_player(
            p,
        )]->Some_0 == (PlayerChoice { chair: choices[packet_player(p)]->Some_0.chair, map: Some(map) }),
        p matches ClientPacket::PlayerChairChoice { chair, .. } ==> next_choices(num, choices, p)[packet_player(
            p,
        )]->Some_0 == (PlayerChoice { chair: Some(chair), map: choices[packet_player(p)]->Some_0.map }),
        forall|q: int|
            0 <= q < PLAYER_SLOTS && q != packet_player(p) ==> #[trigger] next_choices(num, choices, p)[q]
                == choices[q],
{
}

/// Handles one packet from the server: updates what the client knows and
/// returns what it has to do, in order.
pub fn apply_packet(state: &mut ClientState, packet: ClientPacket) -> (actions: Vec<ClientAction>)
    requires
        old(state).wf(),
        packet_allowed(old(state).player_num, old(state).player_choices@, packet),
    ensures
        final(state).wf(),
        final(state).player_num == next_player_num(old(state).player_num, packet),
        final(state).player_choices@ == next_choices(
            old(state).player_num,
            old(state).player_choices@,
            packet,
        ),
        actions_match(packet, actions@),
        packet is EntityUpdate ==> actions@ == seq![ClientAction::UpdateLocations],
        packet matches ClientPacket::PlayerMapChoice { player, map } ==> {
            &&& final(state).player_choices@[player as int] is Some
            &&& final(state).player_choices@[player as int]->Some_0.chair
                == old(state).player_choices@[player as int]->Some_0.chair
            &&& final(state).player_choices@[player as int]->Some_0.map == Some(map)
        },
        packet matches ClientPacket::PlayerChairChoice { player, chair } ==> {
            &&& final(state).player_choices@[player as int] is Some
            &&& final(state).player_choices@[player as int]->Some_0.map
                == old(state).player_choices@[player as int]->Some_0.map
            &&& final(state).player_choices@[player as int]->Some_0.chair == Some(chair)
        },
        packet is PlayerMapChoice || packet is PlayerChairChoice || packet is PlayerJoined ==> forall|q: int|
            0 <= q < PLAYER_SLOTS && q != packet_player(packet) ==> #[trigger] final(state).player_choices@[q]
                == old(state).player_choices@[q],
{
    let ghost p = packet;
    let mut actions: Vec<ClientAction> = Vec::new();
    match packet {
        ClientPacket::PlayerNumber { player, choices } => {
            state.player_num = player;
            state.player_choices = choices;
            state.player_choices.set(player, Some(PlayerChoice { chair: None, map: None }));
            actions.push(ClientAction::LoadPregame);
            assert(actions@ =~= seq![ClientAction::LoadPregame]);
        },
        ClientPacket::PlayerJoined { player } => {
            if player != state.player_num {
                state.player_choices.set(player, Some(PlayerChoice { chair: None, map: None }));
            }
        },
        ClientPacket::PlayerChairChoice { player, chair } => {
            let old_choice = state.player_choices.remove(player);
            let map = match old_choice {
                Some(c) => c.map,
                None => None,
            };
            state.player_choices.insert(player, Some(PlayerChoice { chair: Some(chair), map }));
            assert(state.player_choices@ =~= next_choices(
                old(state).player_num,
                old(state).player_choices@,
                p,
            ));
            actions.push(ClientAction::DisplayChair { player, chair });
            assert(actions@ =~= seq![ClientAction::DisplayChair { player, chair }]);
        },
        ClientPacket::PlayerMapChoice { player, map } => {
            let text = map_vote_text(player, map.as_str());
            let old_choice = state.player_choices.remove(player);
            let chair = match old_choice {
                Some(c) => c.chair,
                None => None,
            };
            state.player_choices.insert(player, Some(PlayerChoice { chair, map: Some(map) }));
            assert(state.player_choices@ =~= next_choices(
                old(state).player_num,
                old(state).player_choices@,
                p,
            ));
            actions.push(ClientAction::Report { text });
        },
        ClientPacket::PlayerReadyStatus { player, ready } => {
            actions.push(ClientAction::Report { text: ready_text(player, ready) });
        },
        ClientPacket::LoadGame { map } => {
            let ghost a = ClientAction::LoadGame { map };
            actions.push(ClientAction::LoadGame { map });
            assert(actions@ =~= seq![a]);
        },
        ClientPacket::EntityUpdate => {
            actions.push(ClientAction::UpdateLocations);
            assert(actions@ =~= seq![ClientAction::UpdateLocations]);
        },
        ClientPacket::PlacementUpdate { place } => {
            let shown = displayed_place(place);
            actions.push(ClientAction::ShowPlace { place: shown });
            assert(actions@ =~= seq![ClientAction::ShowPlace { place: shown }]);
        },
        ClientPacket::LapUpdate { lap } => {
            actions.push(ClientAction::Report { text: lap_report_text(lap) });
            actions.push(ClientAction::PlaySound { effect: SoundEffect::NextLap });
        },
        ClientPacket::GameStart { countdown_ms } => {
            actions.push(ClientAction::ShowHud);
            actions.push(ClientAction::PlaySound { effect: SoundEffect::GameStart });
            actions.push(ClientAction::SetGameStart { countdown_ms });
            assert(actions@ =~= seq![
                ClientAction::ShowHud,
                ClientAction::PlaySound { effect: SoundEffect::GameStart },
                ClientAction::SetGameStart { countdown_ms },
            ]);
        },
        ClientPacket::PowerupPickup => {
            actions.push(ClientAction::Report { text: <String as StringExecFns>::from_str("we got a powerup!") });
        },
        ClientPacket::VotingStarted { prompt, vote_ends_in_ms } => {
            let title = voting_title();
            let subtitle = voting_subtitle(vote_ends_in_ms / 1000);
            actions.push(ClientAction::Announce { title, subtitle });
            actions.push(
                ClientAction::SetAnnouncement {
                    announcement: AnnouncementState::VotingInProgress { prompt, vote_ends_in_ms },
                },
            );
            actions.push(ClientAction::PlaySound { effect: SoundEffect::InteractionVoteStart });
        },
        ClientPacket::InteractionActivate { prompt, decision, effect_ends_in_ms } => {
            let title = chosen_title(decision.as_str());
            let subtitle = effect_subtitle(effect_ends_in_ms / 1000);
            actions.push(ClientAction::Announce { title, subtitle });
            actions.push(
                ClientAction::SetAnnouncement {
                    announcement: AnnouncementState::VoteActiveTime { prompt, decision, effect_ends_in_ms },
                },
            );
            actions.push(ClientAction::PlaySound { effect: SoundEffect::InteractionChosen });
        },
        ClientPacket::SoundEffectEvent { effect } => {
            actions.push(ClientAction::PlaySound { effect });
            assert(actions@ =~= seq![ClientAction::PlaySound { effect }]);
        },
        ClientPacket::AllDone { final_placements } => {
            actions.push(ClientAction::PlaySound { effect: SoundEffect::GameEnd });
            let ghost a = ClientAction::ReportResults { final_placements };
            actions.push(ClientAction::ReportResults { final_placements });
            assert(actions@ =~= seq![ClientAction::PlaySound { effect: SoundEffect::GameEnd }, a]);
        },
        ClientPacket::StartNextGame => {
            actions.push(ClientAction::LoadPregame);
            assert(actions@ =~= seq![ClientAction::LoadPregame]);
        },
    }
    proof {
        if actions@.len() == 0 {
            assert(actions@ =~= Seq::<ClientAction>::empty());
        }
    }
    actions
}

} // verus!
