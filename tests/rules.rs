use kutschfahrt::{
    inventory_limit, logged_in, logout, me_loggedout, AttackRole, AttackState, AttackSupport,
    AttackWinner, Buff, BuffSource, Command, CommandError, Faction, Item, ItemDonationFollowup, Job,
    LoggedIn, MyState, PerspectiveTradeTriggerState, PerspectiveTurnState, Player, PlayerState,
    State, TradeTriggerState, TurnState,
};
use rand::rngs::StdRng;
use rand::SeedableRng;

fn ps(faction: Faction, job: Job, items: Vec<Item>) -> PlayerState {
    PlayerState { faction, job, job_is_visible: false, items }
}

fn table(turn: TurnState) -> State {
    State::from_parts(
        vec![
            (Player::Sarah, ps(Faction::Order, Job::Duelist, vec![Item::Gloves, Item::Key, Item::Whip])),
            (Player::Gundla, ps(Faction::Brotherhood, Job::Priest, vec![Item::BagGoblet])),
            (Player::Marie, ps(Faction::Order, Job::PoisonMixer, vec![Item::Dagger, Item::PoisonRing])),
            (Player::Zacharias, ps(Faction::Brotherhood, Job::Doctor, vec![Item::Goblet])),
        ],
        vec![Item::Tome, Item::CastingKnives],
        vec![Job::Thug, Job::Bodyguard],
        turn,
    )
}

fn three_players() -> State {
    State::from_parts(
        vec![
            (Player::Marie, ps(Faction::Order, Job::Thug, vec![Item::Key])),
            (Player::Zacharias, ps(Faction::Brotherhood, Job::Doctor, vec![Item::Goblet])),
            (Player::Gundla, ps(Faction::Brotherhood, Job::Priest, vec![Item::Whip])),
        ],
        vec![],
        vec![Job::Bodyguard],
        TurnState::WaitingForQuickblink(Player::Marie),
    )
}

fn all_items(s: &State) -> Vec<Item> {
    let mut v: Vec<Item> = Vec::new();
    for p in s.players() {
        v.extend_from_slice(&s.player(p).items);
    }
    v.extend_from_slice(s.item_stack());
    v.sort_by_key(|i| format!("{:?}", i));
    v
}

fn items(s: &State, p: Player) -> Vec<Item> {
    s.player(p).items.clone()
}

#[test]
fn pass_cycles_through_three_players() {
    let mut s = three_players();
    let order = [Player::Marie, Player::Zacharias, Player::Gundla];
    for k in 0..7 {
        let now = order[k % 3];
        assert_eq!(s.turn, TurnState::WaitingForQuickblink(now));
        s.apply_command(now, Command::Pass).unwrap();
    }
    assert_eq!(s.turn, TurnState::WaitingForQuickblink(Player::Zacharias));
}

#[test]
fn wrong_actor_leaves_state_unchanged() {
    let mut s = table(TurnState::TradePending { offerer: Player::Sarah, target: Player::Marie, item: Item::Key });
    let before = all_items(&s);
    assert_eq!(s.apply_command(Player::Gundla, Command::AcceptTrade { item: Item::BagGoblet }), Err(CommandError::NotYourTurn));
    assert_eq!(s.turn, TurnState::TradePending { offerer: Player::Sarah, target: Player::Marie, item: Item::Key });
    assert_eq!(all_items(&s), before);
    assert_eq!(items(&s, Player::Gundla), vec![Item::BagGoblet]);
}

#[test]
fn outsider_is_refused() {
    let mut s = three_players();
    assert_eq!(s.apply_command(Player::Sarah, Command::Pass), Err(CommandError::NotYourTurn));
    assert_eq!(s.turn, TurnState::WaitingForQuickblink(Player::Marie));
}

#[test]
fn game_over_refuses_everything() {
    let mut s = table(TurnState::GameOver { winner: Faction::Order });
    assert_eq!(s.apply_command(Player::Sarah, Command::Pass), Err(CommandError::GameOver));
}

#[test]
fn trade_swaps_by_position() {
    let mut s = table(TurnState::WaitingForQuickblink(Player::Sarah));
    let before = all_items(&s);
    s.apply_command(Player::Sarah, Command::OfferTrade { target: Player::Marie, item: Item::Key }).unwrap();
    s.apply_command(Player::Marie, Command::AcceptTrade { item: Item::PoisonRing }).unwrap();
    assert_eq!(items(&s, Player::Sarah), vec![Item::Gloves, Item::PoisonRing, Item::Whip]);
    assert_eq!(items(&s, Player::Marie), vec![Item::Dagger, Item::Key]);
    assert_eq!(s.turn, TurnState::WaitingForQuickblink(Player::Gundla));
    assert_eq!(all_items(&s), before);
}

#[test]
fn offer_errors() {
    let mut s = table(TurnState::WaitingForQuickblink(Player::Sarah));
    assert_eq!(s.apply_command(Player::Sarah, Command::OfferTrade { target: Player::Sarah, item: Item::Key }), Err(CommandError::InvalidTargetPlayer));
    assert_eq!(s.apply_command(Player::Sarah, Command::InitiateAttack { player: Player::Sarah }), Err(CommandError::InvalidTargetPlayer));
    assert_eq!(s.apply_command(Player::Sarah, Command::RejectTrade), Err(CommandError::InvalidCommandInThisContext));
    let mut t = three_players();
    assert_eq!(t.apply_command(Player::Marie, Command::OfferTrade { target: Player::Sarah, item: Item::Key }), Err(CommandError::InvalidTargetPlayer));
    assert_eq!(t.apply_command(Player::Marie, Command::AnnounceVictory { teammates: vec![Player::Sarah] }), Err(CommandError::InvalidTargetPlayer));
}

#[test]
fn announcing_with_named_self_counts_once() {
    let mut s = table(TurnState::WaitingForQuickblink(Player::Sarah));
    let mut st = s.player(Player::Sarah).clone();
    st.items = vec![Item::Key, Item::Key];
    s.set_player(Player::Sarah, st);
    s.apply_command(Player::Sarah, Command::AnnounceVictory { teammates: vec![Player::Sarah] }).unwrap();
    assert_eq!(s.turn, TurnState::GameOver { winner: Faction::Brotherhood });
}

#[test]
fn bag_counts_for_victory_once_pile_is_empty() {
    let mut s = three_players();
    let mut st = s.player(Player::Marie).clone();
    st.items = vec![Item::Key, Item::Key, Item::BagKey];
    s.set_player(Player::Marie, st);
    s.apply_command(Player::Marie, Command::AnnounceVictory { teammates: vec![] }).unwrap();
    assert_eq!(s.turn, TurnState::GameOver { winner: Faction::Order });
}

#[test]
fn sextant_backwards() {
    let mut s = table(TurnState::ResolvingTradeTrigger {
        offerer: Player::Sarah,
        target: Player::Marie,
        next_item: None,
        trigger: TradeTriggerState::Sextant { item_selections: vec![None, None, None, None], is_forward: None },
    });
    let before = all_items(&s);
    assert_eq!(s.apply_command(Player::Sarah, Command::SetSextantDirection { forward: false }), Err(CommandError::NotYourTurn));
    s.apply_command(Player::Marie, Command::SetSextantDirection { forward: false }).unwrap();
    s.apply_command(Player::Sarah, Command::SelectSextantItem { item: Item::Key }).unwrap();
    assert_eq!(s.apply_command(Player::Sarah, Command::SelectSextantItem { item: Item::Whip }), Err(CommandError::InvalidCommandInThisContext));
    assert_eq!(s.apply_command(Player::Gundla, Command::SelectSextantItem { item: Item::Key }), Err(CommandError::InvalidItemError(Item::Key)));
    match s.perspective(Player::Sarah).turn {
        PerspectiveTurnState::ResolvingTradeTrigger { trigger, .. } => assert_eq!(trigger, PerspectiveTradeTriggerState::Sextant { item_selections: vec![Some(Item::Key), None, None, None], is_forward: Some(false) }),
        other => panic!("unexpected {:?}", other),
    }
    match s.perspective(Player::Gundla).turn {
        PerspectiveTurnState::ResolvingTradeTrigger { trigger, .. } => assert_eq!(trigger, PerspectiveTradeTriggerState::Sextant { item_selections: vec![None, None, None, None], is_forward: Some(false) }),
        other => panic!("unexpected {:?}", other),
    }
    s.apply_command(Player::Gundla, Command::SelectSextantItem { item: Item::BagGoblet }).unwrap();
    s.apply_command(Player::Marie, Command::SelectSextantItem { item: Item::Dagger }).unwrap();
    s.apply_command(Player::Zacharias, Command::SelectSextantItem { item: Item::Goblet }).unwrap();
    // every seat hands its selection to the seat before it
    assert_eq!(items(&s, Player::Sarah), vec![Item::Gloves, Item::Whip, Item::BagGoblet]);
    assert_eq!(items(&s, Player::Gundla), vec![Item::Dagger]);
    assert_eq!(items(&s, Player::Marie), vec![Item::PoisonRing, Item::Goblet]);
    assert_eq!(items(&s, Player::Zacharias), vec![Item::Key]);
    assert_eq!(s.turn, TurnState::WaitingForQuickblink(Player::Gundla));
    assert_eq!(all_items(&s), before);
}

#[test]
fn coat_with_missing_job() {
    let mut s = table(TurnState::ResolvingTradeTrigger { offerer: Player::Sarah, target: Player::Marie, next_item: Some(Item::Dagger), trigger: TradeTriggerState::Coat });
    assert_eq!(s.apply_command(Player::Sarah, Command::PickNewJob { job: Job::Hypnotist }), Err(CommandError::InvalidJobError(Job::Hypnotist)));
    s.apply_command(Player::Sarah, Command::PickNewJob { job: Job::Bodyguard }).unwrap();
    assert_eq!(s.player(Player::Sarah).job, Job::Bodyguard);
    assert_eq!(s.job_stack(), &vec![Job::Thug, Job::Duelist]);
    assert_eq!(s.turn, TurnState::WaitingForQuickblink(Player::Gundla));
}

#[test]
fn donation_errors_and_followup() {
    let mut s = table(TurnState::DonatingItem { donor: Player::Sarah, followup: ItemDonationFollowup::NextPlayer(Player::Gundla) });
    assert_eq!(s.apply_command(Player::Marie, Command::DonateItem { target: Player::Gundla, item: Item::Dagger }), Err(CommandError::NotYourTurn));
    assert_eq!(s.apply_command(Player::Sarah, Command::DonateItem { target: Player::Sarah, item: Item::Key }), Err(CommandError::InvalidTargetPlayer));
    assert_eq!(s.apply_command(Player::Sarah, Command::DonateItem { target: Player::Gundla, item: Item::Dagger }), Err(CommandError::InvalidItemError(Item::Dagger)));
    let before = all_items(&s);
    s.apply_command(Player::Sarah, Command::DonateItem { target: Player::Gundla, item: Item::Key }).unwrap();
    assert_eq!(items(&s, Player::Sarah), vec![Item::Gloves, Item::Whip]);
    assert_eq!(items(&s, Player::Gundla), vec![Item::BagGoblet, Item::Key]);
    assert_eq!(s.turn, TurnState::WaitingForQuickblink(Player::Gundla));
    assert_eq!(all_items(&s), before);
}

fn items_or_jobs(votes: Vec<(Player, AttackSupport)>, passed: Vec<Player>, buffs: Vec<Buff>) -> State {
    table(TurnState::Attacking {
        attacker: Player::Sarah,
        defender: Player::Marie,
        state: AttackState::ItemsOrJobs { votes, passed, buffs },
    })
}

#[test]
fn tie_with_empty_pile_ends_turn() {
    let mut s = three_players();
    s.turn = TurnState::Attacking {
        attacker: Player::Marie,
        defender: Player::Gundla,
        state: AttackState::ItemsOrJobs { votes: vec![(Player::Zacharias, AttackSupport::Abstain)], passed: vec![Player::Marie, Player::Gundla], buffs: vec![] },
    };
    s.apply_command(Player::Zacharias, Command::ItemOrJob { buff: None, target: None }).unwrap();
    assert_eq!(s.turn, TurnState::WaitingForQuickblink(Player::Zacharias));
    assert_eq!(items(&s, Player::Marie), vec![Item::Key]);
}

#[test]
fn positive_score_makes_attacker_win() {
    let mut s = items_or_jobs(vec![(Player::Zacharias, AttackSupport::Attack), (Player::Gundla, AttackSupport::Abstain)], vec![Player::Sarah, Player::Gundla, Player::Zacharias], vec![]);
    s.apply_command(Player::Marie, Command::ItemOrJob { buff: None, target: None }).unwrap();
    assert_eq!(s.turn, TurnState::Attacking { attacker: Player::Sarah, defender: Player::Marie, state: AttackState::Resolving { winner: AttackWinner::Attacker } });
    assert_eq!(s.apply_command(Player::Marie, Command::ClaimReward { steal_items: true }), Err(CommandError::NotYourTurn));
}

#[test]
fn buff_errors() {
    let votes = vec![(Player::Zacharias, AttackSupport::Attack)];
    let mut s = items_or_jobs(votes.clone(), vec![Player::Marie], vec![]);
    assert_eq!(s.apply_command(Player::Marie, Command::ItemOrJob { buff: None, target: None }), Err(CommandError::YouHaveAlreadyPassed));
    assert_eq!(s.apply_command(Player::Gundla, Command::ItemOrJob { buff: Some(BuffSource::Item(Item::BagGoblet)), target: None }), Err(CommandError::YouAbstained));
    assert_eq!(s.apply_command(Player::Sarah, Command::ItemOrJob { buff: Some(BuffSource::Job(Job::Thug)), target: None }), Err(CommandError::JobError));
    assert_eq!(s.apply_command(Player::Sarah, Command::ItemOrJob { buff: Some(BuffSource::Item(Item::Dagger)), target: None }), Err(CommandError::InvalidItemError(Item::Dagger)));
    assert_eq!(s.apply_command(Player::Sarah, Command::ItemOrJob { buff: Some(BuffSource::Item(Item::Whip)), target: None }), Err(CommandError::InvalidCommandInThisContext));
    let used = Buff { user: Player::Marie, source: BuffSource::Item(Item::Gloves), raw_score: -2 };
    let mut t = items_or_jobs(votes, vec![], vec![used]);
    assert_eq!(t.apply_command(Player::Sarah, Command::ItemOrJob { buff: Some(BuffSource::Item(Item::Gloves)), target: None }), Err(CommandError::InvalidCommandInThisContext));
    assert_eq!(t.apply_command(Player::Marie, Command::ItemOrJob { buff: Some(BuffSource::Item(Item::PoisonRing)), target: None }), Ok(()));
    assert_eq!(t.apply_command(Player::Marie, Command::ItemOrJob { buff: Some(BuffSource::Item(Item::PoisonRing)), target: None }), Err(CommandError::DuplicateBuffUsage));
}

#[test]
fn duelist_clears_votes_and_supporter_buffs() {
    let knives = Buff { user: Player::Zacharias, source: BuffSource::Item(Item::CastingKnives), raw_score: 2 };
    let gloves = Buff { user: Player::Marie, source: BuffSource::Item(Item::Gloves), raw_score: -2 };
    let mut s = items_or_jobs(vec![(Player::Zacharias, AttackSupport::Attack), (Player::Gundla, AttackSupport::Defend)], vec![Player::Gundla], vec![knives, gloves]);
    s.apply_command(Player::Sarah, Command::ItemOrJob { buff: Some(BuffSource::Job(Job::Duelist)), target: None }).unwrap();
    let duel = Buff { user: Player::Sarah, source: BuffSource::Job(Job::Duelist), raw_score: 2 };
    assert_eq!(s.turn, TurnState::Attacking {
        attacker: Player::Sarah,
        defender: Player::Marie,
        state: AttackState::ItemsOrJobs { votes: vec![(Player::Zacharias, AttackSupport::Abstain), (Player::Gundla, AttackSupport::Abstain)], passed: vec![], buffs: vec![gloves, duel] },
    });
    assert!(s.player(Player::Sarah).job_is_visible);
    assert_eq!(s.apply_command(Player::Sarah, Command::ItemOrJob { buff: Some(BuffSource::Job(Job::Duelist)), target: None }), Err(CommandError::JobError));
}

#[test]
fn doctor_and_poison_mixer_end_the_fight() {
    let mut s = table(TurnState::Attacking { attacker: Player::Zacharias, defender: Player::Marie, state: AttackState::ItemsOrJobs { votes: vec![], passed: vec![], buffs: vec![] } });
    s.apply_command(Player::Zacharias, Command::ItemOrJob { buff: Some(BuffSource::Job(Job::Doctor)), target: None }).unwrap();
    assert_eq!(s.turn, TurnState::WaitingForQuickblink(Player::Sarah));
    let mut t = items_or_jobs(vec![], vec![], vec![]);
    assert_eq!(t.apply_command(Player::Marie, Command::ItemOrJob { buff: Some(BuffSource::Job(Job::PoisonMixer)), target: Some(Player::Gundla) }), Err(CommandError::InvalidCommandInThisContext));
    assert!(!t.player(Player::Marie).job_is_visible);
    t.apply_command(Player::Marie, Command::ItemOrJob { buff: Some(BuffSource::Job(Job::PoisonMixer)), target: Some(Player::Marie) }).unwrap();
    assert_eq!(t.turn, TurnState::Attacking { attacker: Player::Sarah, defender: Player::Marie, state: AttackState::Resolving { winner: AttackWinner::Defender } });
}

#[test]
fn declaring_support_goes_in_seat_order() {
    let mut s = table(TurnState::Attacking { attacker: Player::Marie, defender: Player::Sarah, state: AttackState::DeclaringSupport(vec![]) });
    assert_eq!(s.apply_command(Player::Gundla, Command::DeclareSupport { support: AttackSupport::Attack }), Err(CommandError::NotYourTurn));
    s.apply_command(Player::Zacharias, Command::DeclareSupport { support: AttackSupport::Defend }).unwrap();
    s.apply_command(Player::Gundla, Command::DeclareSupport { support: AttackSupport::Attack }).unwrap();
    assert_eq!(s.turn, TurnState::Attacking {
        attacker: Player::Marie,
        defender: Player::Sarah,
        state: AttackState::WaitingForHypnotizer(vec![(Player::Zacharias, AttackSupport::Defend), (Player::Gundla, AttackSupport::Attack)]),
    });
    assert_eq!(s.apply_command(Player::Marie, Command::Hypnotize { target: Some(Player::Sarah) }), Err(CommandError::InvalidTargetPlayer));
    assert_eq!(s.apply_command(Player::Marie, Command::Hypnotize { target: Some(Player::Gundla) }), Err(CommandError::JobError));
}

#[test]
fn hypnotist_silences_one_vote() {
    let mut s = table(TurnState::Attacking { attacker: Player::Sarah, defender: Player::Marie, state: AttackState::WaitingForHypnotizer(vec![(Player::Zacharias, AttackSupport::Defend), (Player::Gundla, AttackSupport::Defend)]) });
    let mut st = s.player(Player::Sarah).clone();
    st.job = Job::Hypnotist;
    s.set_player(Player::Sarah, st);
    s.apply_command(Player::Sarah, Command::Hypnotize { target: Some(Player::Gundla) }).unwrap();
    assert_eq!(s.turn, TurnState::Attacking {
        attacker: Player::Sarah,
        defender: Player::Marie,
        state: AttackState::ItemsOrJobs { votes: vec![(Player::Zacharias, AttackSupport::Defend), (Player::Gundla, AttackSupport::Abstain)], passed: vec![], buffs: vec![] },
    });
}

#[test]
fn priest_rules() {
    let mut s = table(TurnState::Attacking { attacker: Player::Sarah, defender: Player::Marie, state: AttackState::WaitingForPriest { passed: vec![] } });
    assert_eq!(s.apply_command(Player::Marie, Command::UsePriest { priest: true }), Err(CommandError::JobError));
    s.apply_command(Player::Gundla, Command::UsePriest { priest: false }).unwrap();
    assert_eq!(s.apply_command(Player::Gundla, Command::UsePriest { priest: true }), Err(CommandError::YouHaveAlreadyPassed));
    s.apply_command(Player::Gundla, Command::UsePriest { priest: false }).unwrap();
    assert_eq!(s.turn, TurnState::Attacking { attacker: Player::Sarah, defender: Player::Marie, state: AttackState::WaitingForPriest { passed: vec![Player::Gundla] } });
    let mut t = table(TurnState::Attacking { attacker: Player::Sarah, defender: Player::Gundla, state: AttackState::PayingPriest { priest: Player::Gundla } });
    assert_eq!(t.apply_command(Player::Gundla, Command::PayPriest { item: Item::BagGoblet }), Err(CommandError::NotYourTurn));
    assert_eq!(t.apply_command(Player::Sarah, Command::PayPriest { item: Item::Goblet }), Err(CommandError::InvalidItemError(Item::Goblet)));
}

#[test]
fn defender_steals_from_attacker() {
    let mut s = table(TurnState::Attacking { attacker: Player::Sarah, defender: Player::Marie, state: AttackState::FinishResolving { winner: AttackWinner::Defender, steal_items: true } });
    assert_eq!(s.apply_command(Player::Sarah, Command::StealItem { item: Item::Key, give_back: None }), Err(CommandError::NotYourTurn));
    assert_eq!(s.apply_command(Player::Marie, Command::StealItem { item: Item::Key, give_back: Some(Item::Dagger) }), Err(CommandError::InvalidStealCommand));
    assert_eq!(s.apply_command(Player::Marie, Command::StealItem { item: Item::Goblet, give_back: None }), Err(CommandError::InvalidStealCommand));
    assert_eq!(s.apply_command(Player::Marie, Command::DoneLookingAtThings), Err(CommandError::InvalidCommandInThisContext));
    let before = all_items(&s);
    s.apply_command(Player::Marie, Command::StealItem { item: Item::Key, give_back: None }).unwrap();
    assert_eq!(items(&s, Player::Marie), vec![Item::Dagger, Item::PoisonRing, Item::Key]);
    assert_eq!(items(&s, Player::Sarah), vec![Item::Gloves, Item::Whip]);
    assert_eq!(s.turn, TurnState::WaitingForQuickblink(Player::Gundla));
    assert_eq!(all_items(&s), before);
}

#[test]
fn trade_reveals_item_to_target_only() {
    let s = table(TurnState::TradePending { offerer: Player::Sarah, target: Player::Marie, item: Item::Key });
    assert_eq!(s.perspective(Player::Marie).turn, PerspectiveTurnState::TradePending { offerer: Player::Sarah, target: Player::Marie, item: Some(Item::Key) });
    assert_eq!(s.perspective(Player::Sarah).turn, PerspectiveTurnState::TradePending { offerer: Player::Sarah, target: Player::Marie, item: None });
    let p = s.perspective(Player::Gundla);
    assert_eq!(p.your_player_index, 1);
    assert_eq!(p.item_stack, 2);
    assert_eq!(p.you.items, vec![Item::BagGoblet]);
    assert_eq!(p.players.len(), 4);
    assert_eq!(p.players[0].item_count, 3);
    assert_eq!(p.players[0].job, None);
}

#[test]
fn dealt_game_is_complete() {
    let mut rng = StdRng::seed_from_u64(42);
    let s = State::new(vec![Player::Gundla, Player::Marie, Player::Zacharias, Player::Sarah], &mut rng);
    let seats = s.players();
    assert_eq!(seats.len(), 4);
    assert_eq!(s.turn, TurnState::WaitingForQuickblink(seats[0]));
    let mut hands: Vec<Item> = Vec::new();
    for p in &seats {
        assert_eq!(s.player(*p).items.len(), 1);
        assert!(!s.player(*p).job_is_visible);
        hands.push(s.player(*p).items[0]);
    }
    assert!(hands.contains(&Item::BagKey));
    assert!(hands.contains(&Item::BagGoblet));
    assert_eq!(all_items(&s).len(), 21);
    assert_eq!(s.item_stack().len(), 17);
    assert_eq!(s.job_stack().len(), 6);
    let order = seats.iter().filter(|p| s.player(**p).faction == Faction::Order).count();
    assert!(order <= 2);
}

#[test]
fn shuffling_depends_on_the_seed() {
    let mut seatings = Vec::new();
    let mut hands = Vec::new();
    for seed in 0..20 {
        let mut rng = StdRng::seed_from_u64(seed);
        let s = State::new(vec![Player::Gundla, Player::Marie, Player::Zacharias, Player::Sarah], &mut rng);
        let seats = s.players();
        let hand: Vec<Item> = seats.iter().map(|p| s.player(*p).items[0]).collect();
        if !seatings.contains(&seats) {
            seatings.push(seats);
        }
        let mut sorted = hand.clone();
        sorted.sort_by_key(|i| format!("{:?}", i));
        if !hands.contains(&sorted) {
            hands.push(sorted);
        }
    }
    assert!(seatings.len() > 1);
    assert!(hands.len() > 1);
}

#[test]
fn bag_offer_forces_donation_in_dealt_game() {
    let mut rng = StdRng::seed_from_u64(7);
    let mut s = State::new(vec![Player::Gundla, Player::Marie, Player::Zacharias, Player::Sarah], &mut rng);
    let seats = s.players();
    let giver = *seats.iter().find(|p| s.player(**p).items.contains(&Item::BagKey)).unwrap();
    let receiver = *seats.iter().find(|p| **p != giver).unwrap();
    let mut st = s.player(receiver).clone();
    st.items.extend_from_slice(&[Item::Key, Item::Key, Item::Goblet, Item::Goblet, Item::Dagger]);
    s.set_player(receiver, st);
    assert_eq!(s.player(receiver).items.len(), inventory_limit(4));
    s.turn = TurnState::WaitingForQuickblink(giver);
    let pile = s.item_stack().len();
    let top = *s.item_stack().last().unwrap();
    s.apply_command(giver, Command::OfferTrade { target: receiver, item: Item::BagKey }).unwrap();
    s.apply_command(receiver, Command::AcceptTrade { item: Item::Key }).unwrap();
    assert_eq!(s.item_stack().len(), pile - 1);
    assert_eq!(s.player(giver).items.len(), 1);
    assert_eq!(s.player(receiver).items.len(), 7);
    assert_eq!(*s.player(receiver).items.last().unwrap(), top);
    assert!(matches!(s.turn, TurnState::DonatingItem { donor, .. } if donor == receiver));
}

#[test]
fn returned_bag_refills_offerer() {
    let mut s = table(TurnState::TradePending { offerer: Player::Sarah, target: Player::Gundla, item: Item::Key });
    s.apply_command(Player::Gundla, Command::AcceptTrade { item: Item::BagGoblet }).unwrap();
    assert_eq!(items(&s, Player::Sarah), vec![Item::Gloves, Item::BagGoblet, Item::Whip, Item::CastingKnives]);
    assert_eq!(items(&s, Player::Gundla), vec![Item::Key]);
    assert_eq!(s.item_stack(), &vec![Item::Tome]);
    assert_eq!(s.turn, TurnState::WaitingForQuickblink(Player::Gundla));
}

#[test]
fn victory_counts_team_items_collectively() {
    let mut s = table(TurnState::WaitingForQuickblink(Player::Sarah));
    let mut st = s.player(Player::Sarah).clone();
    st.items.extend_from_slice(&[Item::Key, Item::Key]);
    s.set_player(Player::Sarah, st);
    s.apply_command(Player::Sarah, Command::AnnounceVictory { teammates: vec![Player::Marie] }).unwrap();
    assert_eq!(s.turn, TurnState::GameOver { winner: Faction::Order });
}

#[test]
fn tables_and_scores() {
    assert_eq!(inventory_limit(3), 8);
    assert_eq!(inventory_limit(4), 6);
    assert_eq!(inventory_limit(5), 5);
    assert_eq!(BuffSource::Item(Item::Dagger).raw_score(AttackRole::Attacker), Some(2));
    assert_eq!(BuffSource::Item(Item::PoisonRing).raw_score(AttackRole::Defender), Some(-1));
    assert_eq!(BuffSource::Job(Job::Bodyguard).raw_score(AttackRole::AttackSupport(AttackSupport::Defend)), Some(-2));
    assert_eq!(BuffSource::Item(Item::Dagger).raw_score(AttackRole::Defender), None);
    assert_eq!(AttackSupport::Attack.vote_value(), 1);
    assert_eq!(AttackSupport::Defend.vote_value(), -1);
    assert_eq!(AttackSupport::Abstain.vote_value(), 0);
    assert!(Job::Priest.once());
    assert!(!Job::Thug.once());
    assert_eq!(Player::all(), vec![Player::Gundla, Player::Sarah, Player::Marie, Player::Zacharias]);
}

#[test]
fn single_use_jobs() {
    let mut p = ps(Faction::Order, Job::Priest, vec![]);
    assert!(p.use_job(Job::Priest).is_ok());
    assert!(p.job_is_visible);
    assert!(p.use_job(Job::Priest).is_err());
    let mut q = ps(Faction::Order, Job::Thug, vec![]);
    assert!(q.use_job(Job::Thug).is_ok());
    assert!(q.use_job(Job::Thug).is_ok());
    assert!(q.use_job(Job::Priest).is_err());
}

#[test]
fn sessions() {
    let l = logout();
    assert_eq!(l.remove_cookie, Some("userid"));
    assert_eq!(l.redirect_to, "/");
    assert_eq!(me_loggedout(), MyState::LoggedOut);
    assert_eq!(logged_in(Some(42)), Some(LoggedIn { steamid: 42 }));
    assert_eq!(logged_in(None), None);
}

#[test]
fn job_use_error_converts() {
    assert_eq!(CommandError::from(kutschfahrt::JobUseError), CommandError::JobError);
}

#[test]
fn paying_priest_checks_actor_first() {
    let mut s = table(TurnState::Attacking { attacker: Player::Sarah, defender: Player::Gundla, state: AttackState::PayingPriest { priest: Player::Gundla } });
    assert_eq!(s.apply_command(Player::Marie, Command::Pass), Err(CommandError::NotYourTurn));
    assert_eq!(s.apply_command(Player::Sarah, Command::Pass), Err(CommandError::InvalidCommandInThisContext));
    s.apply_command(Player::Sarah, Command::PayPriest { item: Item::Whip }).unwrap();
    assert_eq!(items(&s, Player::Gundla), vec![Item::BagGoblet, Item::Whip]);
    assert_eq!(s.turn, TurnState::WaitingForQuickblink(Player::Gundla));
}

#[test]
fn deal_seats_in_given_order() {
    let s = State::deal(
        &vec![Player::Zacharias, Player::Sarah, Player::Gundla],
        &vec![Item::BagKey, Item::Dagger, Item::BagGoblet],
        &vec![Faction::Brotherhood, Faction::Order, Faction::Order],
        &vec![Job::Thug, Job::Priest, Job::Doctor],
        vec![Item::Whip],
        vec![Job::Diplomat],
    );
    assert_eq!(s.players(), vec![Player::Zacharias, Player::Sarah, Player::Gundla]);
    assert_eq!(s.turn, TurnState::WaitingForQuickblink(Player::Zacharias));
    assert_eq!(s.player(Player::Sarah), &PlayerState { faction: Faction::Order, job: Job::Priest, job_is_visible: false, items: vec![Item::Dagger] });
    assert_eq!(s.item_stack(), &vec![Item::Whip]);
    assert_eq!(s.job_stack(), &vec![Job::Diplomat]);
}
