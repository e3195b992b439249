use benilla::probe_bg::{
    arena_for, gm_text, lua_chunk, BgProbe, Frame, GmCommand, Phase, ProbeAction, ProbeFailure, ProbeNote,
    DOORS_SAMPLE, MAX_REJOINS,
};

fn frame(now: u64) -> Frame {
    Frame {
        now,
        level: 60,
        has_vm: true,
        master_near: None,
        listed_master: None,
        slots: vec![None, None, None],
        map: 0,
        flag_near: None,
        dead: false,
        census_samples: 12,
    }
}

#[test]
fn the_arena_is_chosen_by_key_and_defaults_to_warsong() {
    assert_eq!(arena_for("wsg").map, 489);
    assert_eq!(arena_for("AB").map, 529);
    assert_eq!(arena_for("av").map, 30);
    assert_eq!(arena_for("").map, 489);
    assert_eq!(arena_for("xyz").map, 489);
    assert_eq!(arena_for("av").flag, None);
    assert_eq!(arena_for("wsg").flag, Some(179831));
    assert_eq!(arena_for("Av").npc_entry, 7410);
}

#[test]
fn setup_levels_clears_deserter_and_hops() {
    let arena = arena_for("wsg");
    let mut p = BgProbe::new();
    let mut f = frame(0);
    f.level = 25;
    f.has_vm = false;
    let acts = p.step(&arena, &f, "");
    assert_eq!(
        acts,
        vec![
            ProbeAction::Gm(GmCommand::Revive),
            ProbeAction::Gm(GmCommand::LevelUp { levels: 35 }),
            ProbeAction::Gm(GmCommand::ClearDeserter),
            ProbeAction::Note(ProbeNote::Setup),
            ProbeAction::GoToArena,
        ]
    );
    assert_eq!(p.phase, Phase::Hopped { sent_at: 0 });
    assert!(!p.tap_installed);
    // The tap goes in on the first frame with a VM, and only once.
    let acts = p.step(&arena, &frame(1000), "");
    assert_eq!(acts, vec![ProbeAction::InstallTap]);
    assert!(p.tap_installed);
    assert!(p.step(&arena, &frame(2000), "").is_empty());
}

#[test]
fn the_toggle_reply_is_read_before_anything_queues() {
    let arena = arena_for("wsg");
    let mut p = BgProbe { phase: Phase::Hopped { sent_at: 0 }, tap_installed: true, rejoins: 0 };
    assert_eq!(p.step(&arena, &frame(3000), ""), vec![ProbeAction::Gm(GmCommand::ToggleTesting)]);
    assert_eq!(p.phase, Phase::Toggled { sent_at: 3000, corrected: false });
    assert!(!p.wants_drain(4000));
    assert!(p.wants_drain(4500));
    // The reply says the send turned testing OFF: send once more.
    let acts = p.step(&arena, &frame(4500), "  CHAT_MSG_SYSTEM(normal playercount)");
    assert_eq!(
        acts,
        vec![ProbeAction::Note(ProbeNote::TestingWasOn), ProbeAction::Gm(GmCommand::ToggleTesting)]
    );
    assert_eq!(p.phase, Phase::Toggled { sent_at: 4500, corrected: true });
    // Off again after the correction: the account cannot do it.
    let acts = p.step(&arena, &frame(6000), "normal playercount");
    assert_eq!(acts, vec![ProbeAction::Fail(ProbeFailure::TestingStaysOff)]);
    assert_eq!(p.phase, Phase::Done);
    assert!(p.step(&arena, &frame(99000), "").is_empty());
}

#[test]
fn the_battlemaster_is_greeted_and_the_list_answered_with_a_join() {
    let arena = arena_for("ab");
    let mut p = BgProbe { phase: Phase::Toggled { sent_at: 0, corrected: false }, tap_installed: true, rejoins: 0 };
    let mut f = frame(2000);
    f.master_near = Some(77);
    let acts = p.step(&arena, &f, "debugging");
    assert_eq!(
        acts,
        vec![
            ProbeAction::Note(ProbeNote::TestingOn),
            ProbeAction::Note(ProbeNote::Greeting { npc: 77 }),
            ProbeAction::Hello { npc: 77 },
        ]
    );
    let mut f = frame(3000);
    f.listed_master = Some(77);
    let acts = p.step(&arena, &f, "");
    assert_eq!(
        acts,
        vec![ProbeAction::Note(ProbeNote::Listed), ProbeAction::Join { battlemaster: 77, map: 529 }]
    );
    assert_eq!(p.phase, Phase::Joined { sent_at: 3000 });
}

#[test]
fn a_master_that_never_streams_ends_the_run() {
    let arena = arena_for("wsg");
    let mut p = BgProbe { phase: Phase::Toggled { sent_at: 0, corrected: false }, tap_installed: true, rejoins: 0 };
    let acts = p.step(&arena, &frame(2000), "");
    assert_eq!(acts, vec![ProbeAction::Note(ProbeNote::TestingUnread)]);
    assert_eq!(p.phase, Phase::Toggled { sent_at: 0, corrected: false });
    let acts = p.step(&arena, &frame(15001), "");
    assert_eq!(
        acts,
        vec![
            ProbeAction::Note(ProbeNote::TestingUnread),
            ProbeAction::Fail(ProbeFailure::MasterNeverStreamed),
        ]
    );
    assert_eq!(p.phase, Phase::Done);
}

#[test]
fn a_ready_slot_is_taken_through_the_stock_verb_and_rejoins_are_bounded() {
    let arena = arena_for("wsg");
    let mut p = BgProbe { phase: Phase::Joined { sent_at: 0 }, tap_installed: true, rejoins: 0 };
    // Nothing pops: leave the queue and join again, at most three times.
    let mut now = 0;
    for round in 1..=MAX_REJOINS {
        now += 12001;
        let mut f = frame(now);
        f.slots = vec![None, Some(1), None];
        let acts = p.step(&arena, &f, "");
        assert_eq!(
            acts,
            vec![
                ProbeAction::Note(ProbeNote::Rejoin { count: round, slot: 2 }),
                ProbeAction::DeclinePort { slot: 2 },
            ]
        );
        now += 2000;
        let mut f = frame(now);
        f.listed_master = Some(5);
        assert_eq!(p.step(&arena, &f, ""), vec![ProbeAction::Join { battlemaster: 5, map: 489 }]);
    }
    assert_eq!(p.rejoins, MAX_REJOINS);
    let sent = now;
    assert!(p.step(&arena, &frame(sent + 20000), "").is_empty());
    assert_eq!(p.step(&arena, &frame(sent + 30001), ""), vec![ProbeAction::Fail(ProbeFailure::NeverReady)]);

    let mut p = BgProbe { phase: Phase::Joined { sent_at: 0 }, tap_installed: true, rejoins: 0 };
    let mut f = frame(100);
    f.slots = vec![Some(1), Some(2), None];
    let acts = p.step(&arena, &f, "");
    assert_eq!(
        acts,
        vec![ProbeAction::Note(ProbeNote::Confirm { slot: 2 }), ProbeAction::AcceptPort { slot: 2 }]
    );
    assert_eq!(p.phase, Phase::Ported { sent_at: 100 });
    // The verb raised: the road ends.
    assert_eq!(p.port_raised(), vec![ProbeAction::Fail(ProbeFailure::PortRaised)]);
    assert_eq!(p.phase, Phase::Done);
}

#[test]
fn the_census_runs_and_the_toggle_goes_off_at_the_doors() {
    let arena = arena_for("av");
    let mut p = BgProbe { phase: Phase::Ported { sent_at: 0 }, tap_installed: true, rejoins: 0 };
    let mut f = frame(5000);
    f.map = 30;
    assert_eq!(p.step(&arena, &f, ""), vec![ProbeAction::Note(ProbeNote::Entered { after_ms: 5000 })]);
    let mut now = 5000;
    let mut toggles = 0;
    loop {
        now += 12000;
        let acts = p.step(&arena, &frame(now), "");
        assert_eq!(acts[0], ProbeAction::Census { t_ms: now - 5000 });
        if acts.contains(&ProbeAction::Gm(GmCommand::ToggleTesting)) {
            toggles += 1;
            assert_eq!(p.phase, Phase::Inside { entered_at: 5000, next_census: now + 12000, samples: DOORS_SAMPLE });
        }
        if let Phase::Dying { .. } = p.phase {
            assert_eq!(acts.last(), Some(&ProbeAction::Gm(GmCommand::Die)));
            break;
        }
    }
    assert_eq!(toggles, 1);
    let mut f = frame(now + 1000);
    f.dead = true;
    assert_eq!(p.step(&arena, &f, ""), vec![ProbeAction::Note(ProbeNote::Dead), ProbeAction::Repop]);
    let released = now + 1000;
    let mut acts = Vec::new();
    for k in 1..=11u64 {
        acts = p.step(&arena, &frame(released + 4000 * k), "");
        assert_eq!(acts[0], ProbeAction::GhostSample { t_ms: 4000 * k });
    }
    assert_eq!(
        acts[1..].to_vec(),
        vec![
            ProbeAction::AcceptSpiritHeal,
            ProbeAction::Report,
            ProbeAction::Gm(GmCommand::Recall),
            ProbeAction::Note(ProbeNote::Done),
        ]
    );
    assert_eq!(p.phase, Phase::Done);
}

#[test]
fn a_census_shorter_than_the_doors_turns_testing_off_with_its_last_sample() {
    let arena = arena_for("wsg");
    let mut p = BgProbe { phase: Phase::Inside { entered_at: 0, next_census: 12000, samples: 0 }, tap_installed: true, rejoins: 0 };
    let mut toggles = 0;
    for k in 1..=4u64 {
        let mut f = frame(12000 * k);
        f.census_samples = 4;
        let acts = p.step(&arena, &f, "");
        toggles += acts.iter().filter(|a| **a == ProbeAction::Gm(GmCommand::ToggleTesting)).count();
        if k < 4 {
            assert_eq!(acts, vec![ProbeAction::Census { t_ms: 12000 * k }]);
        } else {
            assert_eq!(
                acts,
                vec![
                    ProbeAction::Census { t_ms: 48000 },
                    ProbeAction::Note(ProbeNote::TestingOff),
                    ProbeAction::Gm(GmCommand::ToggleTesting),
                    ProbeAction::Note(ProbeNote::FlagHop),
                    ProbeAction::GoToFlag,
                ]
            );
        }
    }
    assert_eq!(toggles, 1);
    assert_eq!(p.phase, Phase::FlagHop { at: 48000 });

    // A census of exactly the doors' length sends the toggle once, at the doors.
    let mut p = BgProbe { phase: Phase::Inside { entered_at: 0, next_census: 0, samples: DOORS_SAMPLE - 1 }, tap_installed: true, rejoins: 0 };
    let mut f = frame(0);
    f.census_samples = DOORS_SAMPLE;
    let acts = p.step(&arena, &f, "");
    assert_eq!(acts.iter().filter(|a| **a == ProbeAction::Gm(GmCommand::ToggleTesting)).count(), 1);
    assert_eq!(p.phase, Phase::FlagHop { at: 0 });
}

#[test]
fn the_flag_leg_uses_the_flag_and_samples_it() {
    let arena = arena_for("wsg");
    let mut p = BgProbe { phase: Phase::FlagHop { at: 0 }, tap_installed: true, rejoins: 0 };
    assert!(p.step(&arena, &frame(3999), "").is_empty());
    let mut f = frame(4000);
    f.flag_near = Some(900);
    assert_eq!(
        p.step(&arena, &f, ""),
        vec![ProbeAction::Note(ProbeNote::FlagStreamed { guid: 900 }), ProbeAction::UseObject { guid: 900 }]
    );
    for k in 1..=5u64 {
        let acts = p.step(&arena, &frame(4000 + 3000 * k), "");
        assert_eq!(acts[0], ProbeAction::FlagSample { t_ms: 3000 * k });
    }
    assert_eq!(p.phase, Phase::Dying { sent_at: 19000 });
}

#[test]
fn every_wait_has_a_deadline() {
    let arena = arena_for("wsg");
    let at = |phase: Phase| BgProbe { phase, tap_installed: true, rejoins: 0 };

    let mut p = at(Phase::Greeted { master: 1, sent_at: 0 });
    assert!(p.step(&arena, &frame(8000), "").is_empty());
    assert_eq!(p.step(&arena, &frame(8001), ""), vec![ProbeAction::Fail(ProbeFailure::NoList)]);

    let mut p = at(Phase::Joined { sent_at: 0 });
    let mut f = frame(10);
    f.slots = vec![Some(2)];
    f.has_vm = false;
    assert_eq!(
        p.step(&arena, &f, ""),
        vec![ProbeAction::Note(ProbeNote::Confirm { slot: 1 }), ProbeAction::Fail(ProbeFailure::NoVm)]
    );

    let mut p = at(Phase::Ported { sent_at: 0 });
    let mut f = frame(30001);
    f.map = 1;
    assert_eq!(p.step(&arena, &f, ""), vec![ProbeAction::Fail(ProbeFailure::MapNotReached { map: 1 })]);

    let mut p = at(Phase::Inside { entered_at: 0, next_census: 12000, samples: 3 });
    let mut f = frame(12000);
    f.has_vm = false;
    assert_eq!(p.step(&arena, &f, ""), vec![ProbeAction::Fail(ProbeFailure::VmGone)]);

    let mut p = at(Phase::Rejoining { at: 0 });
    assert_eq!(p.step(&arena, &frame(2000), ""), vec![ProbeAction::Fail(ProbeFailure::ListGone)]);

    let mut p = at(Phase::FlagHop { at: 0 });
    assert_eq!(
        p.step(&arena, &frame(20001), ""),
        vec![ProbeAction::Fail(ProbeFailure::FlagNeverStreamed), ProbeAction::Gm(GmCommand::Die)]
    );
    assert_eq!(p.phase, Phase::Dying { sent_at: 20001 });
    assert!(p.step(&arena, &frame(35001), "").is_empty());
    assert_eq!(p.step(&arena, &frame(35002), ""), vec![ProbeAction::Fail(ProbeFailure::StillAlive)]);
    assert_eq!(p.phase, Phase::Done);
}

#[test]
fn commands_and_verbs_are_spelled_as_the_wire_wants() {
    assert_eq!(gm_text(GmCommand::Revive), ".revive");
    assert_eq!(gm_text(GmCommand::LevelUp { levels: 35 }), ".levelup 35");
    assert_eq!(gm_text(GmCommand::ClearDeserter), ".unaura 26013");
    assert_eq!(gm_text(GmCommand::ToggleTesting), ".debug bg");
    assert_eq!(gm_text(GmCommand::Die), ".die");
    assert_eq!(gm_text(GmCommand::Recall), ".recall");
    assert_eq!(lua_chunk(ProbeAction::AcceptPort { slot: 2 }).as_deref(), Some("AcceptBattlefieldPort(2, 1)"));
    assert_eq!(lua_chunk(ProbeAction::DeclinePort { slot: 1 }).as_deref(), Some("AcceptBattlefieldPort(1, 0)"));
    assert_eq!(lua_chunk(ProbeAction::AcceptSpiritHeal).as_deref(), Some("AcceptAreaSpiritHeal()"));
    assert_eq!(lua_chunk(ProbeAction::Repop), None);
}
