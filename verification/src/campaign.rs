//! Campaign definitions and the progress of a player through a campaign.
use vstd::prelude::*;
use crate::tiles::{str_eq, owned};

verus! {

/// The rooms, spells, traps and creatures a campaign unlocks for good.
#[derive(Debug)]
pub struct CampaignUnlocks {
    pub rooms: Vec<String>,
    pub spells: Vec<String>,
    pub traps: Vec<String>,
    pub creatures: Vec<String>,
}

/// One mission of a campaign and the missions it leads to.
#[derive(Debug)]
pub struct CampaignMission {
    pub id: String,
    pub scenario_id: String,
    pub name: String,
    pub briefing: String,
    pub unlocks_after: Vec<String>,
    pub required_completed: Vec<String>,
}

/// A campaign: a graph of missions with a starting point.
#[derive(Debug)]
pub struct CampaignDefinition {
    pub id: String,
    pub name: String,
    pub description: String,
    pub starting_mission: String,
    pub missions: Vec<CampaignMission>,
    pub persistent_unlocks: CampaignUnlocks,
}

/// A player's progress through one campaign. The completed and unlocked
/// missions are sets: no id appears twice in either list.
#[derive(Debug)]
pub struct CampaignProgress {
    pub campaign_id: String,
    pub active_mission: String,
    pub completed_missions: Vec<String>,
    pub unlocked_missions: Vec<String>,
    pub persistent_unlocks: CampaignUnlocks,
}

/// The characters of each string of a list.
pub open spec fn strs(v: Seq<String>) -> Seq<Seq<char>> {
    v.map_values(|s: String| s@)
}

/// The list holds a string with the characters `s`.
pub open spec fn holds_str(v: Seq<String>, s: Seq<char>) -> bool {
    exists|i: int| 0 <= i < v.len() && (#[trigger] v[i])@ == s
}

/// No string occurs twice in the list.
pub open spec fn no_dups(v: Seq<String>) -> bool {
    forall|i: int, j: int| 0 <= i < j < v.len() ==> (#[trigger] v[i])@ != (#[trigger] v[j])@
}

/// `i` is the index of the first mission with the given id.
pub open spec fn first_mission_with_id(ms: Seq<CampaignMission>, id: Seq<char>, i: int) -> bool {
    &&& 0 <= i < ms.len()
    &&& ms[i].id@ == id
    &&& forall|j: int| 0 <= j < i ==> (#[trigger] ms[j]).id@ != id
}

/// A mission can become the active one: unlocked, not completed, and all its
/// required missions completed.
pub open spec fn eligible(unlocked: Seq<String>, completed: Seq<String>, m: CampaignMission) -> bool {
    &&& holds_str(unlocked, m.id@)
    &&& !holds_str(completed, m.id@)
    &&& forall|k: int| 0 <= k < m.required_completed@.len() ==> holds_str(completed, (#[trigger] m.required_completed@[k])@)
}

/// Two unlock bundles hold the same names.
pub open spec fn same_unlocks(a: CampaignUnlocks, b: CampaignUnlocks) -> bool {
    &&& strs(a.rooms@) == strs(b.rooms@)
    &&& strs(a.spells@) == strs(b.spells@)
    &&& strs(a.traps@) == strs(b.traps@)
    &&& strs(a.creatures@) == strs(b.creatures@)
}

/// The well-formedness of a progress record: its sets hold no duplicates.
pub open spec fn progress_wf(p: CampaignProgress) -> bool {
    no_dups(p.completed_missions@) && no_dups(p.unlocked_missions@)
}

/// A copy of a list of strings.
pub fn copy_strings(v: &Vec<String>) -> (r: Vec<String>)
    ensures
        strs(r@) == strs(v@),
{
    let mut r: Vec<String> = Vec::new();
    let mut i: usize = 0;
    while i < v.len()
        invariant
            i <= v@.len(),
            r@.len() == i,
            forall|k: int| 0 <= k < i ==> (#[trigger] r@[k])@ == v@[k]@,
        decreases v@.len() - i,
    {
        r.push(v[i].clone());
        i = i + 1;
    }
    assert(strs(r@) =~= strs(v@));
    r
}

/// Whether the list holds the given string.
pub fn contains_str(v: &Vec<String>, s: &str) -> (r: bool)
    ensures
        r == holds_str(v@, s@),
{
    let mut i: usize = 0;
    while i < v.len()
        invariant
            i <= v@.len(),
            forall|k: int| 0 <= k < i ==> (#[trigger] v@[k])@ != s@,
        decreases v@.len() - i,
    {
        if str_eq(v[i].as_str(), s) {
            return true;
        }
        i = i + 1;
    }
    false
}

/// Add a string to a duplicate-free list unless it is already there.
pub fn insert_str(v: &mut Vec<String>, s: &str)
    requires
        no_dups(old(v)@),
    ensures
        no_dups(final(v)@),
        forall|t: Seq<char>| #[trigger] holds_str(final(v)@, t) == (holds_str(old(v)@, t) || t == s@),
{
    if !contains_str(v, s) {
        let ghost v0 = v@;
        v.push(owned(s));
        proof {
            assert forall|t: Seq<char>| #[trigger] holds_str(v@, t) == (holds_str(v0, t) || t == s@) by {
                if t == s@ {
                    assert(v@[v0.len() as int]@ == t);
                }
                if holds_str(v0, t) {
                    let i = choose|i: int| 0 <= i < v0.len() && (#[trigger] v0[i])@ == t;
                    assert(v@[i] == v0[i]);
                }
                if holds_str(v@, t) && t != s@ {
                    let i = choose|i: int| 0 <= i < v@.len() && (#[trigger] v@[i])@ == t;
                    assert(i < v0.len());
                    assert(v0[i] == v@[i]);
                }
            }
            assert forall|i: int, j: int| 0 <= i < j < v@.len() implies (#[trigger] v@[i])@ != (#[trigger] v@[j])@ by {
                if j == v0.len() {
                    assert(v@[i] == v0[i]);
                    if v@[i]@ == v@[j]@ {
                        assert(holds_str(v0, s@));
                    }
                } else {
                    assert(v@[i] == v0[i]);
                    assert(v@[j] == v0[j]);
                }
            }
        }
    }
}

impl CampaignUnlocks {
    /// A copy of these unlocks.
    pub fn copy(&self) -> (r: CampaignUnlocks)
        ensures
            same_unlocks(r, *self),
    {
        CampaignUnlocks {
            rooms: copy_strings(&self.rooms),
            spells: copy_strings(&self.spells),
            traps: copy_strings(&self.traps),
            creatures: copy_strings(&self.creatures),
        }
    }
}

/// The mission a new progress record starts on: the campaign's starting
/// mission, or the first mission when none is named, or nothing.
pub open spec fn initial_mission(c: CampaignDefinition) -> Seq<char> {
    if c.starting_mission@.len() > 0 {
        c.starting_mission@
    } else if c.missions@.len() > 0 {
        c.missions@[0].id@
    } else {
        Seq::empty()
    }
}

/// The outcome of completing mission `m` of campaign `c`: progress `p0`
/// becomes `p1`.
pub open spec fn completion(p0: CampaignProgress, c: CampaignDefinition, m: Seq<char>, p1: CampaignProgress) -> bool {
    &&& progress_wf(p1)
    &&& p1.campaign_id@ == p0.campaign_id@
    &&& same_unlocks(p1.persistent_unlocks, p0.persistent_unlocks)
    &&& forall|t: Seq<char>|
                #[trigger] holds_str(p1.completed_missions@, t) == (holds_str(p0.completed_missions@, t)
                    || t == m)
    &&& forall|i: int|
                first_mission_with_id(c.missions@, m, i) ==> forall|t: Seq<char>|
                    #[trigger] holds_str(p1.unlocked_missions@, t) == (holds_str(p0.unlocked_missions@, t)
                        || holds_str(c.missions@[i].unlocks_after@, t))
    &&& (forall|i: int| 0 <= i < c.missions@.len() ==> (#[trigger] c.missions@[i]).id@ != m)
                ==> forall|t: Seq<char>|
                #[trigger] holds_str(p1.unlocked_missions@, t) == holds_str(p0.unlocked_missions@, t)
    &&& forall|i: int|
                0 <= i < c.missions@.len() && eligible(
                    p1.unlocked_missions@,
                    p1.completed_missions@,
                    #[trigger] c.missions@[i],
                ) && (forall|j: int|
                    0 <= j < i ==> !eligible(
                        p1.unlocked_missions@,
                        p1.completed_missions@,
                        #[trigger] c.missions@[j],
                    )) ==> p1.active_mission@ == c.missions@[i].id@
    &&& (forall|i: int|
                0 <= i < c.missions@.len() ==> !eligible(
                    p1.unlocked_missions@,
                    p1.completed_missions@,
                    #[trigger] c.missions@[i],
                )) ==> p1.active_mission@ == p0.active_mission@
}

/// Completing the same mission a second time changes nothing more: the
/// completed and unlocked missions and the active mission stay as the first
/// completion left them.
pub proof fn completing_twice_is_completing_once(
    p0: CampaignProgress,
    p1: CampaignProgress,
    p2: CampaignProgress,
    c: CampaignDefinition,
    m: Seq<char>,
)
    requires
        completion(p0, c, m, p1),
        completion(p1, c, m, p2),
    ensures
        forall|t: Seq<char>|
            #[trigger] holds_str(p2.completed_missions@, t) == holds_str(p1.completed_missions@, t),
        forall|t: Seq<char>|
            #[trigger] holds_str(p2.unlocked_missions@, t) == holds_str(p1.unlocked_missions@, t),
        p2.active_mission@ == p1.active_mission@,
{
    assert forall|t: Seq<char>| #[trigger] holds_str(p2.unlocked_missions@, t) == holds_str(p1.unlocked_missions@, t) by {
        if exists|i: int| first_mission_with_id(c.missions@, m, i) {
            let i = choose|i: int| first_mission_with_id(c.missions@, m, i);
            assert(holds_str(p1.unlocked_missions@, t) == (holds_str(p0.unlocked_missions@, t)
                || holds_str(c.missions@[i].unlocks_after@, t)));
        } else {
            assert forall|i: int| 0 <= i < c.missions@.len() implies (#[trigger] c.missions@[i]).id@ != m by {
                if c.missions@[i].id@ == m {
                    let p = |k: int| c.missions@[k].id@ == m;
                    lemma_first_index(p, i);
                    let k = choose|k: int| 0 <= k <= i && #[trigger] p(k) && forall|j: int| 0 <= j < k ==> !#[trigger] p(j);
                    assert(c.missions@[k].id@ == m);
                    assert forall|j: int| 0 <= j < k implies (#[trigger] c.missions@[j]).id@ != m by {
                        assert(!p(j));
                    }
                    assert(first_mission_with_id(c.missions@, m, k));
                }
            }
        }
    }
    assert forall|mm: CampaignMission| eligible(p2.unlocked_missions@, p2.completed_missions@, mm) == eligible(
        p1.unlocked_missions@,
        p1.completed_missions@,
        mm,
    ) by {}
    if exists|i: int| 0 <= i < c.missions@.len() && eligible(p2.unlocked_missions@, p2.completed_missions@, #[trigger] c.missions@[i]) {
        let i = choose|i: int| 0 <= i < c.missions@.len() && eligible(p2.unlocked_missions@, p2.completed_missions@, #[trigger] c.missions@[i]);
        let p = |k: int| eligible(p2.unlocked_missions@, p2.completed_missions@, c.missions@[k]);
        lemma_first_index(p, i);
        let k = choose|k: int| 0 <= k <= i && #[trigger] p(k) && forall|j: int| 0 <= j < k ==> !#[trigger] p(j);
        assert(eligible(p1.unlocked_missions@, p1.completed_missions@, c.missions@[k]));
        assert forall|j: int| 0 <= j < k implies !eligible(p1.unlocked_missions@, p1.completed_missions@, #[trigger] c.missions@[j]) by {
            assert(!p(j));
        }
    }
}

/// Below any index where a predicate holds lies a first index where it
/// holds.
proof fn lemma_first_index(p: spec_fn(int) -> bool, i: int)
    requires
        0 <= i,
        p(i),
    ensures
        exists|k: int| 0 <= k <= i && #[trigger] p(k) && forall|j: int| 0 <= j < k ==> !#[trigger] p(j),
    decreases i,
{
    if exists|j: int| 0 <= j < i && #[trigger] p(j) {
        let j = choose|j: int| 0 <= j < i && #[trigger] p(j);
        lemma_first_index(p, j);
    } else {
        assert(0 <= i <= i && p(i) && forall|j: int| 0 <= j < i ==> !#[trigger] p(j));
    }
}

impl CampaignProgress {
    /// Start a campaign: only the initial mission is unlocked (if there is
    /// one), nothing is completed.
    pub fn new(campaign: &CampaignDefinition) -> (p: CampaignProgress)
        ensures
            progress_wf(p),
            p.campaign_id@ == campaign.id@,
            p.active_mission@ == initial_mission(*campaign),
            p.completed_missions@.len() == 0,
            forall|t: Seq<char>| #[trigger] holds_str(p.unlocked_missions@, t) == (t == initial_mission(*campaign) && t.len() > 0),
            same_unlocks(p.persistent_unlocks, campaign.persistent_unlocks),
    {
        let active_mission = if campaign.starting_mission.as_str().is_empty() {
            if campaign.missions.len() > 0 {
                campaign.missions[0].id.clone()
            } else {
                String::new()
            }
        } else {
            campaign.starting_mission.clone()
        };
        let mut unlocked_missions: Vec<String> = Vec::new();
        if !active_mission.as_str().is_empty() {
            unlocked_missions.push(active_mission.clone());
        }
        proof {
            assert forall|t: Seq<char>| #[trigger] holds_str(unlocked_missions@, t) == (t == initial_mission(*campaign) && t.len() > 0) by {
                if t == initial_mission(*campaign) && t.len() > 0 {
                    assert(unlocked_missions@[0]@ == t);
                }
            }
        }
        CampaignProgress {
            campaign_id: campaign.id.clone(),
            active_mission,
            completed_missions: Vec::new(),
            unlocked_missions,
            persistent_unlocks: campaign.persistent_unlocks.copy(),
        }
    }

    /// Whether a mission may become the active one now.
    fn is_eligible(&self, m: &CampaignMission) -> (r: bool)
        ensures
            r == eligible(self.unlocked_missions@, self.completed_missions@, *m),
    {
        if !contains_str(&self.unlocked_missions, m.id.as_str()) {
            return false;
        }
        if contains_str(&self.completed_missions, m.id.as_str()) {
            return false;
        }
        let mut k: usize = 0;
        while k < m.required_completed.len()
            invariant
                k <= m.required_completed@.len(),
                forall|j: int| 0 <= j < k ==> holds_str(self.completed_missions@, (#[trigger] m.required_completed@[j])@),
            decreases m.required_completed@.len() - k,
        {
            if !contains_str(&self.completed_missions, m.required_completed[k].as_str()) {
                return false;
            }
            k = k + 1;
        }
        true
    }

    /// Mark a mission completed, unlock what it leads to, and move the active
    /// mission to the first mission of the campaign that is unlocked, not
    /// completed and has all its requirements completed (if there is one).
    pub fn complete_mission(&mut self, campaign: &CampaignDefinition, mission_id: &str)
        requires
            progress_wf(*old(self)),
        ensures
            completion(*old(self), *campaign, mission_id@, *final(self)),
    {
        let ghost un0 = self.unlocked_missions@;
        insert_str(&mut self.completed_missions, mission_id);
        let ghost comp1 = self.completed_missions@;
        let ms = &campaign.missions;
        let mut k: usize = 0;
        while k < ms.len() && !str_eq(ms[k].id.as_str(), mission_id)
            invariant
                k <= ms@.len(),
                forall|j: int| 0 <= j < k ==> (#[trigger] ms@[j]).id@ != mission_id@,
            decreases ms@.len() - k,
        {
            k = k + 1;
        }
        if k < ms.len() {
            let unlocks = &ms[k].unlocks_after;
            let mut u: usize = 0;
            while u < unlocks.len()
                invariant
                    u <= unlocks@.len(),
                    no_dups(self.unlocked_missions@),
                    no_dups(self.completed_missions@),
                    self.completed_missions@ == comp1,
                    self.campaign_id@ == old(self).campaign_id@,
                    same_unlocks(self.persistent_unlocks, old(self).persistent_unlocks),
                    self.active_mission@ == old(self).active_mission@,
                    forall|t: Seq<char>|
                        #[trigger] holds_str(self.unlocked_missions@, t) == (holds_str(un0, t) || exists|j: int|
                            0 <= j < u && (#[trigger] unlocks@[j])@ == t),
                decreases unlocks@.len() - u,
            {
                insert_str(&mut self.unlocked_missions, unlocks[u].as_str());
                proof {
                    assert forall|t: Seq<char>|
                        #[trigger] holds_str(self.unlocked_missions@, t) == (holds_str(un0, t) || exists|j: int|
                            0 <= j < u + 1 && (#[trigger] unlocks@[j])@ == t) by {
                        if t == unlocks@[u as int]@ {
                            assert(exists|j: int| 0 <= j < u + 1 && (#[trigger] unlocks@[j])@ == t);
                        }
                        if exists|j: int| 0 <= j < u + 1 && (#[trigger] unlocks@[j])@ == t {
                            let j = choose|j: int| 0 <= j < u + 1 && (#[trigger] unlocks@[j])@ == t;
                            if j < u {
                                assert(exists|j: int| 0 <= j < u && (#[trigger] unlocks@[j])@ == t);
                            }
                        }
                    }
                }
                u = u + 1;
            }
            proof {
                assert forall|i: int| first_mission_with_id(ms@, mission_id@, i) implies forall|t: Seq<char>|
                    #[trigger] holds_str(self.unlocked_missions@, t) == (holds_str(un0, t)
                        || holds_str(ms@[i].unlocks_after@, t)) by {
                    assert(i == k);
                    assert forall|t: Seq<char>| #[trigger] holds_str(self.unlocked_missions@, t) == (holds_str(un0, t)
                        || holds_str(ms@[i].unlocks_after@, t)) by {
                        if holds_str(ms@[i].unlocks_after@, t) {
                            let j = choose|j: int| 0 <= j < unlocks@.len() && (#[trigger] unlocks@[j])@ == t;
                            assert(exists|j: int| 0 <= j < unlocks@.len() && (#[trigger] unlocks@[j])@ == t);
                        }
                        if exists|j: int| 0 <= j < unlocks@.len() && (#[trigger] unlocks@[j])@ == t {
                            let j = choose|j: int| 0 <= j < unlocks@.len() && (#[trigger] unlocks@[j])@ == t;
                            assert(holds_str(ms@[i].unlocks_after@, t));
                        }
                    }
                }
            }
        }
        let mut n: usize = 0;
        while n < ms.len() && !self.is_eligible(&ms[n])
            invariant
                n <= ms@.len(),
                progress_wf(*self),
                self.completed_missions@ == comp1,
                self.campaign_id@ == old(self).campaign_id@,
                same_unlocks(self.persistent_unlocks, old(self).persistent_unlocks),
                self.active_mission@ == old(self).active_mission@,
                forall|j: int|
                    0 <= j < n ==> !eligible(self.unlocked_missions@, self.completed_missions@, #[trigger] ms@[j]),
            decreases ms@.len() - n,
        {
            n = n + 1;
        }
        if n < ms.len() {
            self.active_mission = ms[n].id.clone();
            proof {
                assert forall|i: int|
                    0 <= i < ms@.len() && eligible(self.unlocked_missions@, self.completed_missions@, #[trigger] ms@[i])
                        && (forall|j: int|
                        0 <= j < i ==> !eligible(self.unlocked_missions@, self.completed_missions@, #[trigger] ms@[j]))
                        implies self.active_mission@ == ms@[i].id@ by {
                    if i < n {
                    } else if i > n {
                        assert(!eligible(self.unlocked_missions@, self.completed_missions@, ms@[n as int]));
                    }
                }
            }
        }
    }

    /// The active mission, if the campaign has a mission with its id.
    pub fn active_mission<'a>(&self, campaign: &'a CampaignDefinition) -> (r: Option<&'a CampaignMission>)
        ensures
            r is Some <==> exists|i: int| first_mission_with_id(campaign.missions@, self.active_mission@, i),
            forall|i: int|
                first_mission_with_id(campaign.missions@, self.active_mission@, i) ==> r == Some(&campaign.missions@[i]),
    {
        let ms = &campaign.missions;
        let mut k: usize = 0;
        while k < ms.len() && !str_eq(ms[k].id.as_str(), self.active_mission.as_str())
            invariant
                k <= ms@.len(),
                forall|j: int| 0 <= j < k ==> (#[trigger] ms@[j]).id@ != self.active_mission@,
            decreases ms@.len() - k,
        {
            k = k + 1;
        }
        if k < ms.len() {
            proof {
                assert(first_mission_with_id(ms@, self.active_mission@, k as int));
            }
            Some(&ms[k])
        } else {
            None
        }
    }

    /// The unlocked missions, in campaign order.
    pub fn unlocked_missions<'a>(&self, campaign: &'a CampaignDefinition) -> (r: Vec<&'a CampaignMission>)
        ensures
            r@ == campaign.missions@.filter(|m: CampaignMission| holds_str(self.unlocked_missions@, m.id@)).map_values(|m: CampaignMission| &m),
    {
        let ms = &campaign.missions;
        let ghost pred = |m: CampaignMission| holds_str(self.unlocked_missions@, m.id@);
        let mut r: Vec<&'a CampaignMission> = Vec::new();
        let mut k: usize = 0;
        while k < ms.len()
            invariant
                k <= ms@.len(),
                pred == (|m: CampaignMission| holds_str(self.unlocked_missions@, m.id@)),
                r@ == ms@.take(k as int).filter(pred).map_values(|m: CampaignMission| &m),
            decreases ms@.len() - k,
        {
            proof {
                assert(ms@.take(k as int + 1).drop_last() =~= ms@.take(k as int));
                reveal_with_fuel(Seq::filter, 1);
            }
            if contains_str(&self.unlocked_missions, ms[k].id.as_str()) {
                r.push(&ms[k]);
                proof {
                    assert(r@ =~= ms@.take(k as int + 1).filter(pred).map_values(|m: CampaignMission| &m));
                }
            } else {
                proof {
                    assert(r@ =~= ms@.take(k as int + 1).filter(pred).map_values(|m: CampaignMission| &m));
                }
            }
            k = k + 1;
        }
        proof {
            assert(ms@.take(ms@.len() as int) =~= ms@);
        }
        r
    }

    /// Whether the mission with this id is completed.
    pub fn has_completed(&self, mission_id: &str) -> (r: bool)
        ensures
            r == holds_str(self.completed_missions@, mission_id@),
    {
        contains_str(&self.completed_missions, mission_id)
    }

    /// Whether the mission with this id is unlocked.
    pub fn has_unlocked(&self, mission_id: &str) -> (r: bool)
        ensures
            r == holds_str(self.unlocked_missions@, mission_id@),
    {
        contains_str(&self.unlocked_missions, mission_id)
    }
}


/// The mission graph of the built-in campaign: for each mission in order, its
/// id (also its scenario id), the missions it unlocks, and the missions it
/// requires.
pub open spec fn deep_dominion_graph() -> Seq<(Seq<char>, Seq<Seq<char>>, Seq<Seq<char>>)> {
    seq![
        ("dark_beginnings"@, seq!["blood_and_iron"@], seq![]),
        ("blood_and_iron"@, seq!["the_long_dark"@], seq!["dark_beginnings"@]),
        ("the_long_dark"@, seq!["no_prisoners"@], seq!["blood_and_iron"@]),
        ("no_prisoners"@, seq!["whispers_in_the_circle"@], seq!["the_long_dark"@]),
        ("whispers_in_the_circle"@, seq!["the_kennels"@], seq!["no_prisoners"@]),
        ("the_kennels"@, seq!["restless_dead"@, "pacts_and_sacrifice"@], seq!["whispers_in_the_circle"@]),
        ("restless_dead"@, seq!["the_iron_siege"@], seq!["the_kennels"@]),
        ("pacts_and_sacrifice"@, seq!["the_iron_siege"@], seq!["the_kennels"@]),
        ("the_iron_siege"@, seq!["corruption_rising"@], seq![]),
        ("corruption_rising"@, seq!["two_kings"@], seq!["the_iron_siege"@]),
        ("two_kings"@, seq!["heavens_reach"@], seq!["corruption_rising"@]),
        ("heavens_reach"@, seq!["deep_dominion_finale"@], seq!["two_kings"@]),
        ("deep_dominion_finale"@, seq![], seq!["heavens_reach"@])
    ]
}

/// A mission entry of the built-in campaign matches a row of its graph.
pub open spec fn mission_matches(m: CampaignMission, row: (Seq<char>, Seq<Seq<char>>, Seq<Seq<char>>)) -> bool {
    &&& m.id@ == row.0
    &&& m.scenario_id@ == row.0
    &&& strs(m.unlocks_after@) == row.1
    &&& strs(m.required_completed@) == row.2
}

fn strings(items: &[&str]) -> (r: Vec<String>)
    ensures
        r@.len() == items@.len(),
        forall|i: int| 0 <= i < items@.len() ==> (#[trigger] r@[i])@ == items@[i]@,
{
    let mut r: Vec<String> = Vec::new();
    let mut i: usize = 0;
    while i < items.len()
        invariant
            i <= items@.len(),
            r@.len() == i,
            forall|k: int| 0 <= k < i ==> (#[trigger] r@[k])@ == items@[k]@,
        decreases items@.len() - i,
    {
        r.push(owned(items[i]));
        i = i + 1;
    }
    r
}

fn mission(id: &str, name: &str, unlocks_after: Vec<String>, required_completed: Vec<String>) -> (m: CampaignMission)
    ensures
        m.id@ == id@,
        m.scenario_id@ == id@,
        m.name@ == name@,
        m.briefing@.len() == 0,
        m.unlocks_after@ == unlocks_after@,
        m.required_completed@ == required_completed@,
{
    CampaignMission {
        id: owned(id),
        scenario_id: owned(id),
        name: owned(name),
        briefing: String::new(),
        unlocks_after,
        required_completed,
    }
}

/// Load every base-game campaign: the built-in catalogue holds the
/// `deep_dominion` campaign, which starts at `dark_beginnings` and whose
/// thirteen missions form the graph `deep_dominion_graph`.
pub fn load_campaigns() -> (campaigns: Vec<CampaignDefinition>)
    ensures
        campaigns@.len() == 1,
        campaigns@[0].id@ == "deep_dominion"@,
        campaigns@[0].starting_mission@ == "dark_beginnings"@,
        campaigns@[0].missions@.len() == deep_dominion_graph().len(),
        forall|i: int|
            0 <= i < deep_dominion_graph().len() ==> mission_matches(
                #[trigger] campaigns@[0].missions@[i],
                deep_dominion_graph()[i],
            ),
{
    let mut missions: Vec<CampaignMission> = Vec::new();
    missions.push(mission("dark_beginnings", "Dark Beginnings", strings(&["blood_and_iron"]), Vec::new()));
    missions.push(mission("blood_and_iron", "Blood and Iron", strings(&["the_long_dark"]), strings(&["dark_beginnings"])));
    missions.push(mission("the_long_dark", "The Long Dark", strings(&["no_prisoners"]), strings(&["blood_and_iron"])));
    missions.push(mission("no_prisoners", "No Prisoners", strings(&["whispers_in_the_circle"]), strings(&["the_long_dark"])));
    missions.push(mission("whispers_in_the_circle", "Whispers in the Circle", strings(&["the_kennels"]), strings(&["no_prisoners"])));
    missions.push(mission("the_kennels", "The Kennels", strings(&["restless_dead", "pacts_and_sacrifice"]), strings(&["whispers_in_the_circle"])));
    missions.push(mission("restless_dead", "Restless Dead", strings(&["the_iron_siege"]), strings(&["the_kennels"])));
    missions.push(mission("pacts_and_sacrifice", "Pacts and Sacrifice", strings(&["the_iron_siege"]), strings(&["the_kennels"])));
    missions.push(mission("the_iron_siege", "The Iron Siege", strings(&["corruption_rising"]), Vec::new()));
    missions.push(mission("corruption_rising", "Corruption Rising", strings(&["two_kings"]), strings(&["the_iron_siege"])));
    missions.push(mission("two_kings", "Two Kings", strings(&["heavens_reach"]), strings(&["corruption_rising"])));
    missions.push(mission("heavens_reach", "Heaven's Reach", strings(&["deep_dominion_finale"]), strings(&["two_kings"])));
    missions.push(mission("deep_dominion_finale", "Deep Dominion", Vec::new(), strings(&["heavens_reach"])));
    let campaign = CampaignDefinition {
        id: owned("deep_dominion"),
        name: owned("Deep Dominion"),
        description: String::new(),
        starting_mission: owned("dark_beginnings"),
        missions,
        persistent_unlocks: CampaignUnlocks {
            rooms: Vec::new(),
            spells: Vec::new(),
            traps: Vec::new(),
            creatures: Vec::new(),
        },
    };
    let mut campaigns: Vec<CampaignDefinition> = Vec::new();
    campaigns.push(campaign);
    proof {
        assert forall|i: int|
            0 <= i < deep_dominion_graph().len() implies mission_matches(
                #[trigger] campaigns@[0].missions@[i],
                deep_dominion_graph()[i],
            ) by {
            let m = campaigns@[0].missions@[i];
            assert(strs(m.unlocks_after@) =~= deep_dominion_graph()[i].1);
            assert(strs(m.required_completed@) =~= deep_dominion_graph()[i].2);
        }
    }
    campaigns
}

/// The first campaign with the given id.
pub fn find_campaign<'a>(campaigns: &'a Vec<CampaignDefinition>, id: &str) -> (r: Option<&'a CampaignDefinition>)
    ensures
        r is None <==> forall|i: int| 0 <= i < campaigns@.len() ==> (#[trigger] campaigns@[i]).id@ != id@,
        r is Some ==> exists|i: int|
            0 <= i < campaigns@.len() && r == Some(&campaigns@[i]) && campaigns@[i].id@ == id@ && forall|j: int|
                0 <= j < i ==> (#[trigger] campaigns@[j]).id@ != id@,
{
    let mut k: usize = 0;
    while k < campaigns.len() && !str_eq(campaigns[k].id.as_str(), id)
        invariant
            k <= campaigns@.len(),
            forall|j: int| 0 <= j < k ==> (#[trigger] campaigns@[j]).id@ != id@,
        decreases campaigns@.len() - k,
    {
        k = k + 1;
    }
    if k < campaigns.len() {
        Some(&campaigns[k])
    } else {
        None
    }
}

/// The index of the first campaign of `cs` with the id `id`, if any.
pub open spec fn first_with_id(cs: Seq<CampaignDefinition>, id: Seq<char>, i: int) -> bool {
    &&& 0 <= i < cs.len()
    &&& cs[i].id@ == id
    &&& forall|j: int| 0 <= j < i ==> (#[trigger] cs[j]).id@ != id
}

/// No two campaigns of `cs` share an id.
pub open spec fn distinct_ids(cs: Seq<CampaignDefinition>) -> bool {
    forall|i: int, j: int| 0 <= i < j < cs.len() ==> (#[trigger] cs[i]).id@ != (#[trigger] cs[j]).id@
}

/// Add a campaign to a catalogue keyed by id: it replaces the first campaign
/// with its id, or comes last when there is none. A catalogue without a
/// repeated id keeps none, and then looking the id up finds the new campaign.
pub fn insert_campaign(campaigns: &mut Vec<CampaignDefinition>, campaign: CampaignDefinition)
    ensures
        (exists|i: int| #[trigger] first_with_id(old(campaigns)@, campaign.id@, i)) ==> exists|i: int|
            #[trigger] first_with_id(old(campaigns)@, campaign.id@, i) && final(campaigns)@ == old(campaigns)@.update(i, campaign),
        (forall|i: int| 0 <= i < old(campaigns)@.len() ==> (#[trigger] old(campaigns)@[i]).id@ != campaign.id@)
            ==> final(campaigns)@ == old(campaigns)@.push(campaign),
        distinct_ids(old(campaigns)@) ==> distinct_ids(final(campaigns)@),
        exists|i: int| #[trigger] first_with_id(final(campaigns)@, campaign.id@, i) && final(campaigns)@[i] == campaign,
{
    let mut k: usize = 0;
    while k < campaigns.len() && !str_eq(campaigns[k].id.as_str(), campaign.id.as_str())
        invariant
            k <= campaigns@.len(),
            forall|j: int| 0 <= j < k ==> (#[trigger] campaigns@[j]).id@ != campaign.id@,
        decreases campaigns@.len() - k,
    {
        k = k + 1;
    }
    let ghost c0 = campaigns@;
    let ghost cv = campaign;
    if k < campaigns.len() {
        campaigns.set(k, campaign);
        proof {
            assert(first_with_id(c0, cv.id@, k as int));
            assert(first_with_id(campaigns@, cv.id@, k as int));
            assert forall|i: int, j: int| distinct_ids(c0) && 0 <= i < j < campaigns@.len() implies (#[trigger] campaigns@[i]).id@
                != (#[trigger] campaigns@[j]).id@ by {
                if i != k && j != k {
                    assert(campaigns@[i] == c0[i] && campaigns@[j] == c0[j]);
                } else if i == k {
                    assert(campaigns@[j] == c0[j]);
                    assert(c0[k as int].id@ == cv.id@);
                } else {
                    assert(campaigns@[i] == c0[i]);
                    assert(c0[k as int].id@ == cv.id@);
                }
            }
            if exists|i: int| #[trigger] first_with_id(c0, cv.id@, i) {
                let i = choose|i: int| #[trigger] first_with_id(c0, cv.id@, i);
                assert(i == k);
            }
        }
    } else {
        campaigns.push(campaign);
        proof {
            assert(first_with_id(campaigns@, cv.id@, c0.len() as int)) by {
                assert forall|j: int| 0 <= j < c0.len() implies (#[trigger] campaigns@[j]).id@ != cv.id@ by {
                    assert(campaigns@[j] == c0[j]);
                }
            }
            assert forall|i: int, j: int| distinct_ids(c0) && 0 <= i < j < campaigns@.len() implies (#[trigger] campaigns@[i]).id@
                != (#[trigger] campaigns@[j]).id@ by {
                assert(campaigns@[i] == c0[i]);
                if j < c0.len() {
                    assert(campaigns@[j] == c0[j]);
                }
            }
            if exists|i: int| #[trigger] first_with_id(c0, cv.id@, i) {
                let i = choose|i: int| #[trigger] first_with_id(c0, cv.id@, i);
                assert(false);
            }
        }
    }
}

} // verus!
