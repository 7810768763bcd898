use dungeon_core::campaign::{
    find_campaign, insert_campaign, load_campaigns, CampaignDefinition, CampaignMission, CampaignProgress,
    CampaignUnlocks,
};

fn deep_dominion() -> CampaignDefinition {
    let mut campaigns = load_campaigns();
    let index = campaigns
        .iter()
        .position(|c| c.id == "deep_dominion")
        .expect("campaign missing");
    campaigns.remove(index)
}

#[test]
fn deep_dominion_campaign_is_complete_thirteen_entries() {
    let campaign = deep_dominion();
    assert_eq!(
        campaign.missions.len(),
        13,
        "12 arc slots + the extra branch mission"
    );

    let finale = campaign
        .missions
        .iter()
        .find(|m| m.id == "deep_dominion_finale")
        .expect("finale present");
    assert!(finale.unlocks_after.is_empty(), "finale is terminal");

    let mut progress = CampaignProgress::new(&campaign);
    for m in [
        "dark_beginnings",
        "blood_and_iron",
        "the_long_dark",
        "no_prisoners",
        "whispers_in_the_circle",
        "the_kennels",
        "restless_dead",
        "the_iron_siege",
        "corruption_rising",
        "two_kings",
        "heavens_reach",
    ] {
        progress.complete_mission(&campaign, m);
    }
    assert!(
        progress.has_unlocked("deep_dominion_finale"),
        "the finale must be reachable by playing the chain"
    );
}

#[test]
fn embedded_campaign_parses() {
    let campaigns = load_campaigns();
    let campaign = find_campaign(&campaigns, "deep_dominion").expect("default campaign missing");
    assert_eq!(campaign.starting_mission, "dark_beginnings");
    assert!(!campaign.missions.is_empty());
}

#[test]
fn deep_dominion_unlocks_blood_and_iron_after_dark_beginnings() {
    let campaigns = load_campaigns();
    let campaign = find_campaign(&campaigns, "deep_dominion").expect("campaign missing");

    assert!(campaign.missions.iter().any(|m| m.id == "blood_and_iron"));
    let mut progress = CampaignProgress::new(campaign);
    assert_eq!(progress.active_mission, "dark_beginnings");

    progress.complete_mission(campaign, "dark_beginnings");
    assert_eq!(
        progress.active_mission, "blood_and_iron",
        "completing the opener should advance to the second authored mission"
    );

    assert!(campaign.missions.iter().any(|m| m.id == "the_long_dark"));
    progress.complete_mission(campaign, "blood_and_iron");
    assert_eq!(
        progress.active_mission, "the_long_dark",
        "completing mission 2 should advance to mission 3"
    );

    assert!(campaign.missions.iter().any(|m| m.id == "no_prisoners"));
    progress.complete_mission(campaign, "the_long_dark");
    assert_eq!(
        progress.active_mission, "no_prisoners",
        "completing mission 3 should advance to mission 4"
    );

    assert!(campaign
        .missions
        .iter()
        .any(|m| m.id == "whispers_in_the_circle"));
    progress.complete_mission(campaign, "no_prisoners");
    assert_eq!(
        progress.active_mission, "whispers_in_the_circle",
        "completing mission 4 should advance to mission 5"
    );

    assert!(campaign.missions.iter().any(|m| m.id == "the_kennels"));
    progress.complete_mission(campaign, "whispers_in_the_circle");
    assert_eq!(
        progress.active_mission, "the_kennels",
        "completing mission 5 should advance to mission 6"
    );

    progress.complete_mission(campaign, "the_kennels");
    assert!(
        progress.has_unlocked("restless_dead"),
        "M6 completion should unlock the graveyard path"
    );
    assert!(
        progress.has_unlocked("pacts_and_sacrifice"),
        "M6 completion should unlock the temple path"
    );
    for branch in ["restless_dead", "pacts_and_sacrifice"] {
        let mission = campaign
            .missions
            .iter()
            .find(|m| m.id == branch)
            .expect("branch mission present");
        assert_eq!(mission.required_completed, vec!["the_kennels".to_string()]);
    }

    progress.complete_mission(campaign, "restless_dead");
    assert!(
        progress.has_unlocked("the_iron_siege"),
        "finishing either M7 path should unlock the M8 re-merge"
    );
}

#[test]
fn either_m7_branch_re_merges_into_the_iron_siege() {
    let campaign = deep_dominion();
    let mut progress = CampaignProgress::new(&campaign);
    for m in [
        "dark_beginnings",
        "blood_and_iron",
        "the_long_dark",
        "no_prisoners",
    ] {
        progress.complete_mission(&campaign, m);
    }
    progress.complete_mission(&campaign, "whispers_in_the_circle");
    progress.complete_mission(&campaign, "the_kennels");
    progress.complete_mission(&campaign, "pacts_and_sacrifice");
    assert!(
        progress.has_unlocked("the_iron_siege"),
        "the temple path must also unlock the M8 re-merge"
    );

    progress.complete_mission(&campaign, "the_iron_siege");
    assert!(
        progress.has_unlocked("corruption_rising"),
        "completing M8 should unlock the Act III offense mission"
    );

    progress.complete_mission(&campaign, "corruption_rising");
    assert!(
        progress.has_unlocked("two_kings"),
        "completing M9 should unlock the rival-keeper duel"
    );
}

fn mission(id: &str, scenario: &str, name: &str, briefing: &str, unlocks: &[&str], required: &[&str]) -> CampaignMission {
    CampaignMission {
        id: id.to_string(),
        scenario_id: scenario.to_string(),
        name: name.to_string(),
        briefing: briefing.to_string(),
        unlocks_after: unlocks.iter().map(|s| s.to_string()).collect(),
        required_completed: required.iter().map(|s| s.to_string()).collect(),
    }
}

fn test_campaign(missions: Vec<CampaignMission>) -> CampaignDefinition {
    CampaignDefinition {
        id: "test".to_string(),
        name: "Test".to_string(),
        description: String::new(),
        starting_mission: "m1".to_string(),
        missions,
        persistent_unlocks: CampaignUnlocks {
            rooms: vec![],
            spells: vec![],
            traps: vec![],
            creatures: vec![],
        },
    }
}

#[test]
fn progress_unlocks_next_mission() {
    let campaign = test_campaign(vec![
        mission("m1", "s1", "One", "", &["m2"], &[]),
        mission("m2", "s2", "Two", "", &[], &["m1"]),
    ]);

    let mut progress = CampaignProgress::new(&campaign);
    progress.complete_mission(&campaign, "m1");

    assert!(progress.has_completed("m1"));
    assert_eq!(progress.active_mission, "m2");
}

#[test]
fn progress_exposes_active_briefing_and_unlocked_missions() {
    let campaign = test_campaign(vec![
        mission("m1", "s1", "One", "First briefing", &[], &[]),
        mission("m2", "s2", "Two", "", &[], &[]),
    ]);

    let progress = CampaignProgress::new(&campaign);

    assert_eq!(
        progress.active_mission(&campaign).unwrap().briefing,
        "First briefing"
    );
    assert_eq!(progress.unlocked_missions(&campaign).len(), 1);
}

#[test]
fn new_progress_falls_back_to_first_mission() {
    let mut campaign = test_campaign(vec![
        mission("a", "s1", "A", "", &[], &[]),
        mission("b", "s2", "B", "", &[], &[]),
    ]);
    campaign.starting_mission = String::new();
    let progress = CampaignProgress::new(&campaign);
    assert_eq!(progress.active_mission, "a");
    assert!(progress.has_unlocked("a"));
    assert!(!progress.has_unlocked("b"));
}

#[test]
fn new_progress_of_empty_campaign_unlocks_nothing() {
    let mut campaign = test_campaign(vec![]);
    campaign.starting_mission = String::new();
    let progress = CampaignProgress::new(&campaign);
    assert_eq!(progress.active_mission, "");
    assert!(progress.unlocked_missions.is_empty());
    assert!(progress.active_mission(&campaign).is_none());
}

#[test]
fn completing_unknown_mission_keeps_active_and_unlocks() {
    let campaign = test_campaign(vec![
        mission("m1", "s1", "One", "", &["m2"], &[]),
        mission("m2", "s2", "Two", "", &[], &["m1"]),
    ]);
    let mut progress = CampaignProgress::new(&campaign);
    progress.complete_mission(&campaign, "nowhere");
    assert!(progress.has_completed("nowhere"));
    assert_eq!(progress.active_mission, "m1");
    assert!(!progress.has_unlocked("m2"));
    // completing twice keeps a single entry
    progress.complete_mission(&campaign, "m1");
    progress.complete_mission(&campaign, "m1");
    assert_eq!(progress.completed_missions.len(), 2);
    assert_eq!(progress.unlocked_missions.len(), 2);
}

fn bare_campaign(id: &str, name: &str) -> CampaignDefinition {
    CampaignDefinition {
        id: id.to_string(),
        name: name.to_string(),
        description: String::new(),
        starting_mission: String::new(),
        missions: Vec::new(),
        persistent_unlocks: CampaignUnlocks {
            rooms: Vec::new(),
            spells: Vec::new(),
            traps: Vec::new(),
            creatures: Vec::new(),
        },
    }
}

#[test]
fn a_campaign_of_the_same_id_replaces_the_old_one() {
    let mut campaigns = load_campaigns();
    insert_campaign(&mut campaigns, bare_campaign("side_story", "Side Story"));
    assert_eq!(campaigns.len(), 2);
    assert_eq!(campaigns[1].id, "side_story");
    insert_campaign(&mut campaigns, bare_campaign("deep_dominion", "Deep Dominion Remade"));
    assert_eq!(campaigns.len(), 2);
    assert_eq!(campaigns[0].name, "Deep Dominion Remade");
    assert!(campaigns[0].missions.is_empty());
    let found = find_campaign(&campaigns, "deep_dominion").expect("still there");
    assert_eq!(found.name, "Deep Dominion Remade");
    assert_eq!(find_campaign(&campaigns, "side_story").map(|c| c.name.clone()), Some("Side Story".to_string()));
}
