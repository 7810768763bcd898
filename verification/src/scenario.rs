//! Scenario definitions (action points, scripted events, objectives, rules)
//! and the runtime record of what has happened during a scenario.
use vstd::prelude::*;
use crate::tiles::{OwnerId, str_eq, owned};
use crate::campaign::{strs, holds_str, contains_str};

verus! {

/// A marked spot of a scenario: reached when an entity (of `owner`, when
/// given) comes within `radius` of it.
#[derive(Debug)]
pub struct ActionPointDefinition {
    pub id: String,
    pub x: i32,
    pub y: i32,
    pub radius: i32,
    pub owner: Option<OwnerId>,
}

/// A value given to a scenario rule: a flag, a text, a list (each item a
/// text, or `None` for an item of another kind), or anything else.
#[derive(Debug)]
pub enum RuleValue {
    Bool(bool),
    Text(String),
    List(Vec<Option<String>>),
    Other,
}

/// The rules in force in a scenario.
#[derive(Debug)]
pub struct ScenarioRules {
    pub fog_of_war: bool,
    pub starting_research: Vec<String>,
}

/// What makes a scripted event fire. Times are in milliseconds of play.
#[derive(Debug)]
pub enum EventTrigger {
    TimeElapsed { ms: u64 },
    ObjectiveComplete { objective: String },
    RoomClaimed { room: String, owner: OwnerId },
    ActionPointReached { id: String, owner: OwnerId },
    DungeonBreached { owner: OwnerId },
}

/// What a scripted event does.
#[derive(Debug)]
pub enum EventAction {
    UnlockRoom { room: String, owner: OwnerId },
    UnlockSpell { spell: String, owner: OwnerId },
    UnlockTrap { trap: String, owner: OwnerId },
    SpawnCreature { creature: String, owner: OwnerId, x: i32, y: i32, level: u32 },
    SpawnHeroParty { party: String, x: i32, y: i32 },
    SetRule { key: String, value: RuleValue },
    CompleteObjective { objective: String },
}

/// A scripted event: when its trigger holds, its actions run in order. An
/// event marked `once` fires at most once.
#[derive(Debug)]
pub struct ScenarioEvent {
    pub id: String,
    pub trigger: EventTrigger,
    pub actions: Vec<EventAction>,
    pub once: bool,
}

/// A goal of a scenario. Times are in milliseconds of play.
#[derive(Debug)]
pub enum ScenarioObjective {
    DestroyHeart { owner: OwnerId },
    SurviveTime { ms: u64 },
    DestroyAllHeroBuildings,
    GatherResource { resource: String, amount: i32 },
    Custom { id: String, description: String },
}

/// A scenario: its action points, scripted events, objectives, the ids of
/// its hero parties, and its rules.
#[derive(Debug)]
pub struct ScenarioDefinition {
    pub id: String,
    pub action_points: Vec<ActionPointDefinition>,
    pub events: Vec<ScenarioEvent>,
    pub objectives: Vec<ScenarioObjective>,
    pub hero_parties: Vec<String>,
    pub rules: ScenarioRules,
}

/// The id under which an objective is recorded as complete.
pub open spec fn objective_id_of(o: ScenarioObjective) -> Seq<char> {
    match o {
        ScenarioObjective::DestroyHeart { .. } => "destroy_heart"@,
        ScenarioObjective::SurviveTime { .. } => "survive_time"@,
        ScenarioObjective::DestroyAllHeroBuildings => "destroy_all_hero_buildings"@,
        ScenarioObjective::GatherResource { .. } => "gather_resource"@,
        ScenarioObjective::Custom { id, .. } => id@,
    }
}

impl ScenarioObjective {
    /// The id under which this objective is recorded as complete.
    pub fn objective_id(&self) -> (r: String)
        ensures
            r@ == objective_id_of(*self),
    {
        match self {
            ScenarioObjective::DestroyHeart { .. } => owned("destroy_heart"),
            ScenarioObjective::SurviveTime { .. } => owned("survive_time"),
            ScenarioObjective::DestroyAllHeroBuildings => owned("destroy_all_hero_buildings"),
            ScenarioObjective::GatherResource { .. } => owned("gather_resource"),
            ScenarioObjective::Custom { id, .. } => id.clone(),
        }
    }
}

/// The record of a running scenario: the events fired, the objectives
/// completed, the action points reached (with the owner that reached them),
/// the content unlocked, and the rules in force.
#[derive(Debug)]
pub struct ScenarioRuntime {
    pub fired_events: Vec<String>,
    pub completed_objectives: Vec<String>,
    pub reached_action_points: Vec<(String, OwnerId)>,
    pub unlocked_rooms: Vec<String>,
    pub unlocked_spells: Vec<String>,
    pub unlocked_traps: Vec<String>,
    pub active_rules: ScenarioRules,
}

/// The contents of a scenario record.
pub struct RuntimeView {
    pub fired: Seq<Seq<char>>,
    pub completed: Seq<Seq<char>>,
    pub reached: Seq<(Seq<char>, OwnerId)>,
    pub rooms: Seq<Seq<char>>,
    pub spells: Seq<Seq<char>>,
    pub traps: Seq<Seq<char>>,
    pub fog_of_war: bool,
    pub starting_research: Seq<Seq<char>>,
}

/// The view of a list of (point id, owner) pairs.
pub open spec fn pairs_view(v: Seq<(String, OwnerId)>) -> Seq<(Seq<char>, OwnerId)> {
    v.map_values(|p: (String, OwnerId)| (p.0@, p.1))
}

impl View for ScenarioRuntime {
    type V = RuntimeView;

    open spec fn view(&self) -> RuntimeView {
        RuntimeView {
            fired: strs(self.fired_events@),
            completed: strs(self.completed_objectives@),
            reached: pairs_view(self.reached_action_points@),
            rooms: strs(self.unlocked_rooms@),
            spells: strs(self.unlocked_spells@),
            traps: strs(self.unlocked_traps@),
            fog_of_war: self.active_rules.fog_of_war,
            starting_research: strs(self.active_rules.starting_research@),
        }
    }
}

/// `v` with `s` added at the end unless it is already there.
pub open spec fn with_name(v: Seq<Seq<char>>, s: Seq<char>) -> Seq<Seq<char>> {
    if v.contains(s) {
        v
    } else {
        v.push(s)
    }
}

/// `v` with the pair `p` added at the end unless it is already there.
pub open spec fn with_pair(v: Seq<(Seq<char>, OwnerId)>, p: (Seq<char>, OwnerId)) -> Seq<(Seq<char>, OwnerId)> {
    if v.contains(p) {
        v
    } else {
        v.push(p)
    }
}

/// The texts among the items of a rule's list, in order.
pub open spec fn list_texts(items: Seq<Option<String>>) -> Seq<Seq<char>>
    decreases items.len(),
{
    if items.len() == 0 {
        Seq::empty()
    } else {
        list_texts(items.drop_last()) + match items.last() {
            Some(s) => seq![s@],
            None => Seq::empty(),
        }
    }
}

/// A rule the scenario knows, given a value of the kind it takes: the flag
/// `fog_of_war`, or the list `starting_research`.
pub open spec fn rule_accepts(key: Seq<char>, value: RuleValue) -> bool {
    ||| (key == "fog_of_war"@ && value is Bool)
    ||| (key == "starting_research"@ && value is List)
}

/// The record with the rule `key` set to `value` (when the rule accepts it).
pub open spec fn with_rule(r: RuntimeView, key: Seq<char>, value: RuleValue) -> RuntimeView {
    if key == "fog_of_war"@ {
        match value {
            RuleValue::Bool(b) => RuntimeView { fog_of_war: b, ..r },
            _ => r,
        }
    } else if key == "starting_research"@ {
        match value {
            RuleValue::List(items) => RuntimeView { starting_research: list_texts(items@), ..r },
            _ => r,
        }
    } else {
        r
    }
}

/// The list holds `s` exactly when its view contains it.
pub proof fn lemma_holds_str(v: Seq<String>, s: Seq<char>)
    ensures
        holds_str(v, s) == strs(v).contains(s),
{
    if holds_str(v, s) {
        let i = choose|i: int| 0 <= i < v.len() && (#[trigger] v[i])@ == s;
        assert(strs(v)[i] == s);
    }
    if strs(v).contains(s) {
        let i = choose|i: int| 0 <= i < strs(v).len() && strs(v)[i] == s;
        assert(v[i]@ == s);
    }
}

/// Add `s` to the list unless it is already there.
pub fn add_name(v: &mut Vec<String>, s: &str)
    ensures
        strs(final(v)@) == with_name(strs(old(v)@), s@),
{
    proof {
        lemma_holds_str(v@, s@);
    }
    if !contains_str(v, s) {
        let ghost v0 = v@;
        v.push(owned(s));
        assert(strs(v@) =~= strs(v0).push(s@));
    }
}

/// The texts among the items of a list, in order.
fn texts_of(items: &Vec<Option<String>>) -> (r: Vec<String>)
    ensures
        strs(r@) == list_texts(items@),
{
    let mut r: Vec<String> = Vec::new();
    let mut i: usize = 0;
    while i < items.len()
        invariant
            i <= items@.len(),
            strs(r@) == list_texts(items@.take(i as int)),
        decreases items@.len() - i,
    {
        assert(items@.take(i + 1).drop_last() =~= items@.take(i as int));
        match &items[i] {
            Some(t) => {
                let ghost r0 = r@;
                r.push(t.clone());
                assert(strs(r@) =~= strs(r0) + seq![t@]);
            },
            None => {
                assert(list_texts(items@.take(i + 1)) =~= list_texts(items@.take(i as int)));
            },
        }
        i = i + 1;
    }
    assert(items@.take(items@.len() as int) =~= items@);
    r
}

impl ScenarioRuntime {
    /// A fresh record for a scenario with the given rules: nothing has
    /// happened yet.
    pub fn new(rules: ScenarioRules) -> (r: Self)
        ensures
            r@ == (RuntimeView {
                fired: Seq::empty(),
                completed: Seq::empty(),
                reached: Seq::empty(),
                rooms: Seq::empty(),
                spells: Seq::empty(),
                traps: Seq::empty(),
                fog_of_war: rules.fog_of_war,
                starting_research: strs(rules.starting_research@),
            }),
    {
        let r = ScenarioRuntime {
            fired_events: Vec::new(),
            completed_objectives: Vec::new(),
            reached_action_points: Vec::new(),
            unlocked_rooms: Vec::new(),
            unlocked_spells: Vec::new(),
            unlocked_traps: Vec::new(),
            active_rules: rules,
        };
        assert(strs(r.fired_events@) =~= Seq::empty());
        assert(strs(r.completed_objectives@) =~= Seq::empty());
        assert(pairs_view(r.reached_action_points@) =~= Seq::empty());
        assert(strs(r.unlocked_rooms@) =~= Seq::empty());
        assert(strs(r.unlocked_spells@) =~= Seq::empty());
        assert(strs(r.unlocked_traps@) =~= Seq::empty());
        r
    }

    /// Record that the event `id` has fired.
    pub fn mark_event_fired(&mut self, id: &str)
        ensures
            final(self)@ == (RuntimeView { fired: with_name(old(self)@.fired, id@), ..old(self)@ }),
    {
        add_name(&mut self.fired_events, id);
    }

    /// Record that the objective `id` is complete.
    pub fn mark_objective_complete(&mut self, id: &str)
        ensures
            final(self)@ == (RuntimeView { completed: with_name(old(self)@.completed, id@), ..old(self)@ }),
    {
        add_name(&mut self.completed_objectives, id);
    }

    /// Record that `owner` has reached the action point `id`.
    pub fn mark_action_point_reached(&mut self, id: &str, owner: OwnerId)
        ensures
            final(self)@ == (RuntimeView { reached: with_pair(old(self)@.reached, (id@, owner)), ..old(self)@ }),
    {
        if !self.action_point_reached(id, &owner) {
            let ghost v0 = self.reached_action_points@;
            self.reached_action_points.push((owned(id), owner));
            assert(pairs_view(self.reached_action_points@) =~= pairs_view(v0).push((id@, owner)));
        }
    }

    /// Whether `owner` has reached the action point `id`.
    pub fn action_point_reached(&self, id: &str, owner: &OwnerId) -> (r: bool)
        ensures
            r == self@.reached.contains((id@, *owner)),
    {
        let mut i: usize = 0;
        while i < self.reached_action_points.len()
            invariant
                i <= self.reached_action_points@.len(),
                forall|k: int| 0 <= k < i ==> (#[trigger] pairs_view(self.reached_action_points@)[k]) != (id@, *owner),
            decreases self.reached_action_points@.len() - i,
        {
            let p = &self.reached_action_points[i];
            if str_eq(p.0.as_str(), id) && p.1 == *owner {
                assert(pairs_view(self.reached_action_points@)[i as int] == (id@, *owner));
                return true;
            }
            i = i + 1;
        }
        false
    }

    /// Record the room type `room` as unlocked.
    pub fn unlock_room(&mut self, room: &str)
        ensures
            final(self)@ == (RuntimeView { rooms: with_name(old(self)@.rooms, room@), ..old(self)@ }),
    {
        add_name(&mut self.unlocked_rooms, room);
    }

    /// Record the spell `spell` as unlocked.
    pub fn unlock_spell(&mut self, spell: &str)
        ensures
            final(self)@ == (RuntimeView { spells: with_name(old(self)@.spells, spell@), ..old(self)@ }),
    {
        add_name(&mut self.unlocked_spells, spell);
    }

    /// Record the trap `trap` as unlocked.
    pub fn unlock_trap(&mut self, trap: &str)
        ensures
            final(self)@ == (RuntimeView { traps: with_name(old(self)@.traps, trap@), ..old(self)@ }),
    {
        add_name(&mut self.unlocked_traps, trap);
    }

    /// Set the rule `key` to `value`. Only known rules given a value of
    /// their kind are set; the result says whether the rule was set.
    pub fn set_rule(&mut self, key: &str, value: &RuleValue) -> (r: bool)
        ensures
            r == rule_accepts(key@, *value),
            final(self)@ == with_rule(old(self)@, key@, *value),
    {
        proof {
            reveal_strlit("fog_of_war");
            reveal_strlit("starting_research");
            assert("fog_of_war"@.len() != "starting_research"@.len());
        }
        if str_eq(key, "fog_of_war") {
            match value {
                RuleValue::Bool(b) => {
                    self.active_rules.fog_of_war = *b;
                    true
                },
                _ => false,
            }
        } else if str_eq(key, "starting_research") {
            match value {
                RuleValue::List(items) => {
                    self.active_rules.starting_research = texts_of(items);
                    true
                },
                _ => false,
            }
        } else {
            false
        }
    }
}

} // verus!
