use crate::text::{chars_of, pieces, split_on, split_ranges, substring, trim, trim_range};
use vstd::prelude::*;
use vstd::string::*;

verus! {

/// What a goal asks of the player.
#[derive(Debug, Clone)]
pub enum GoalType {
    /// Reach the map tile tagged for this goal; the text names the location.
    ReachLocation(String),
}

impl Default for GoalType {
    fn default() -> (r: GoalType)
        ensures
            r matches GoalType::ReachLocation(t) && t@.len() == 0,
    {
        GoalType::ReachLocation(String::new())
    }
}

/// One narrative milestone of a scenario.
#[derive(Debug, Clone)]
pub struct Goal {
    pub description: String,
    pub success: String,
    pub failure: String,
    pub goal_type: GoalType,
}

/// Progress of a scenario: the active goal, or how it ended.
#[derive(Debug, Clone)]
pub enum ScenarioState {
    InProgress(usize),
    Success(String),
    Failure(String),
}

/// A scenario: its opening text, its state and its ordered goals.
#[derive(Debug, Clone)]
pub struct Scenario {
    pub initial_description: String,
    pub state: ScenarioState,
    pub goals: Vec<Goal>,
}

/// Where the story stands between scenarios.
#[derive(Debug, Clone, Copy, PartialEq, Eq, Structural, PartialOrd, Ord)]
pub enum StoryPhase {
    Setup,
    Start,
    FinalConfrontation,
    Complete,
}

impl Default for StoryPhase {
    fn default() -> (r: StoryPhase)
        ensures
            r == StoryPhase::Setup,
    {
        StoryPhase::Setup
    }
}

/// Text of a success when the scenario has no goal to take it from.
pub open spec fn default_success_text() -> Seq<char> {
    "Scenario Succeeded"@
}

/// Text of a failure when the scenario has no goal to take it from.
pub open spec fn default_failure_text() -> Seq<char> {
    "Scenario Failed"@
}

/// The success text that ends a scenario with these goals.
pub open spec fn final_success_text(goals: Seq<Goal>) -> Seq<char> {
    if goals.len() > 0 {
        goals.last().success@
    } else {
        default_success_text()
    }
}

/// The failure text that ends a scenario with these goals.
pub open spec fn final_failure_text(goals: Seq<Goal>) -> Seq<char> {
    if goals.len() > 0 {
        goals.last().failure@
    } else {
        default_failure_text()
    }
}

/// A state, with its texts seen as character sequences.
pub enum StateView {
    InProgress(nat),
    Success(Seq<char>),
    Failure(Seq<char>),
}

impl ScenarioState {
    pub open spec fn view(&self) -> StateView {
        match self {
            ScenarioState::InProgress(i) => StateView::InProgress(*i as nat),
            ScenarioState::Success(t) => StateView::Success(t@),
            ScenarioState::Failure(t) => StateView::Failure(t@),
        }
    }

    /// A copy of this state.
    pub fn duplicate(&self) -> (r: ScenarioState)
        ensures
            r@ == self@,
    {
        match self {
            ScenarioState::InProgress(i) => ScenarioState::InProgress(*i),
            ScenarioState::Success(t) => ScenarioState::Success(t.clone()),
            ScenarioState::Failure(t) => ScenarioState::Failure(t.clone()),
        }
    }

    pub fn is_in_progress(&self) -> (r: bool)
        ensures
            r == (self@ is InProgress),
    {
        match self {
            ScenarioState::InProgress(_) => true,
            _ => false,
        }
    }
}

/// The state after the active goal is met: the next goal becomes active, or,
/// after the last one, the scenario succeeds. A finished scenario stays as it is.
pub open spec fn succeeded_state(s: StateView, goals: Seq<Goal>) -> StateView {
    match s {
        StateView::InProgress(i) => if i + 1 < goals.len() {
            StateView::InProgress(i + 1)
        } else {
            StateView::Success(final_success_text(goals))
        },
        _ => s,
    }
}

impl Scenario {
    /// Marks the active goal as met and returns the new state.
    pub fn succeed(&mut self) -> (r: ScenarioState)
        ensures
            final(self).state@ == succeeded_state(old(self).state@, old(self).goals@),
            final(self).goals@ == old(self).goals@,
            final(self).initial_description@ == old(self).initial_description@,
            r@ == final(self).state@,
    {
        if let ScenarioState::InProgress(count) = self.state {
            let n = self.goals.len();
            if n > count && n - count > 1 {
                self.state = ScenarioState::InProgress(count + 1);
            } else {
                let text = if n > 0 {
                    self.goals[n - 1].success.clone()
                } else {
                    String::from_str("Scenario Succeeded")
                };
                self.state = ScenarioState::Success(text);
            }
        }
        self.state.duplicate()
    }

    /// Ends the scenario in failure, whatever its progress, and returns the new state.
    pub fn fail(&mut self) -> (r: ScenarioState)
        ensures
            final(self).state@ == StateView::Failure(final_failure_text(old(self).goals@)),
            final(self).goals@ == old(self).goals@,
            final(self).initial_description@ == old(self).initial_description@,
            r@ == final(self).state@,
    {
        let n = self.goals.len();
        let text = if n > 0 {
            self.goals[n - 1].failure.clone()
        } else {
            String::from_str("Scenario Failed")
        };
        self.state = ScenarioState::Failure(text);
        self.state.duplicate()
    }
}

/// A goal, with its texts seen as character sequences; `target` is the
/// location a `ReachLocation` goal names.
pub struct GoalView {
    pub description: Seq<char>,
    pub success: Seq<char>,
    pub failure: Seq<char>,
    pub target: Seq<char>,
}

impl View for Goal {
    type V = GoalView;

    open spec fn view(&self) -> GoalView {
        GoalView {
            description: self.description@,
            success: self.success@,
            failure: self.failure@,
            target: match self.goal_type {
                GoalType::ReachLocation(t) => t@,
            },
        }
    }
}

/// The views of a list of goals.
pub open spec fn goal_views(goals: Seq<Goal>) -> Seq<GoalView> {
    goals.map_values(|g: Goal| g@)
}

/// The goal type word of a goal that asks to reach a location.
pub open spec fn reach_location_word() -> Seq<char> {
    seq!['r', 'e', 'a', 'c', 'h', '-', 'l', 'o', 'c', 'a', 't', 'i', 'o', 'n']
}

/// One goal section: once trimmed, `description:success:failure:type[:args]`.
/// Only the type `reach-location` with a location argument (trimmed) makes a
/// goal; anything else makes none.
pub open spec fn parse_goal(section: Seq<char>) -> Option<GoalView> {
    let f = split_on(trim(section), ':');
    if f.len() >= 5 && f[3] == reach_location_word() {
        Some(GoalView { description: f[0], success: f[1], failure: f[2], target: trim(f[4]) })
    } else {
        None
    }
}

/// The goals made by these sections, in order.
pub open spec fn parse_sections(sections: Seq<Seq<char>>) -> Seq<GoalView>
    decreases sections.len(),
{
    if sections.len() == 0 {
        Seq::empty()
    } else {
        let rest = parse_sections(sections.drop_last());
        match parse_goal(sections.last()) {
            Some(g) => rest.push(g),
            None => rest,
        }
    }
}

/// The goals of a goal list: sections separated by `|`.
pub open spec fn parse_goals(text: Seq<char>) -> Seq<GoalView> {
    parse_sections(split_on(text, '|'))
}

fn is_reach_location(s: &Vec<char>, a: usize, b: usize) -> (r: bool)
    requires
        a <= b <= s@.len(),
    ensures
        r == (s@.subrange(a as int, b as int) == reach_location_word()),
{
    let word: Vec<char> = vec!['r', 'e', 'a', 'c', 'h', '-', 'l', 'o', 'c', 'a', 't', 'i', 'o', 'n'];
    assert(word@ == reach_location_word());
    if b - a != word.len() {
        assert(s@.subrange(a as int, b as int).len() != word@.len());
        return false;
    }
    let mut k: usize = 0;
    while k < word.len()
        invariant
            k <= word@.len(),
            word@ == reach_location_word(),
            b - a == word@.len(),
            a <= b <= s@.len(),
            forall|j: int| 0 <= j < k ==> s@[a + j] == word@[j],
        decreases word.len() - k,
    {
        if s[a + k] != word[k] {
            assert(s@.subrange(a as int, b as int)[k as int] != word@[k as int]);
            return false;
        }
        k += 1;
    }
    assert(s@.subrange(a as int, b as int) =~= word@);
    true
}

impl Goal {
    /// The goals of a goal list (see `parse_goals`).
    pub fn parse(string: &str) -> (r: Vec<Goal>)
        ensures
            goal_views(r@) == parse_goals(string@),
    {
        let chars = chars_of(string);
        let sections = split_ranges(&chars, 0, chars.len(), '|');
        let ghost secs = pieces(chars@, sections@);
        proof {
            assert(chars@.subrange(0, chars@.len() as int) == chars@);
        }
        let mut goals: Vec<Goal> = Vec::new();
        let mut k: usize = 0;
        while k < sections.len()
            invariant
                k <= sections@.len(),
                chars@ == string@,
                secs == pieces(chars@, sections@),
                secs == split_on(string@, '|'),
                forall|j: int| 0 <= j < sections@.len() ==> (#[trigger] sections@[j]).0 <= sections@[j].1 <= chars@.len(),
                goal_views(goals@) == parse_sections(secs.subrange(0, k as int)),
            decreases sections.len() - k,
        {
            let (a, b) = sections[k];
            let ghost before = goals@;
            proof {
                assert(secs.subrange(0, k + 1).drop_last() == secs.subrange(0, k as int));
                assert(secs.subrange(0, k + 1).last() == chars@.subrange(a as int, b as int));
            }
            let (ta, tb) = trim_range(&chars, a, b);
            let fields = split_ranges(&chars, ta, tb, ':');
            let ghost f = pieces(chars@, fields@);
            if fields.len() >= 5 && is_reach_location(&chars, fields[3].0, fields[3].1) {
                let (xa, xb) = trim_range(&chars, fields[4].0, fields[4].1);
                let goal = Goal {
                    description: substring(string, fields[0].0, fields[0].1),
                    success: substring(string, fields[1].0, fields[1].1),
                    failure: substring(string, fields[2].0, fields[2].1),
                    goal_type: GoalType::ReachLocation(substring(string, xa, xb)),
                };
                goals.push(goal);
                proof {
                    assert(goal_views(goals@) =~= goal_views(before).push(goal@));
                    assert(f[0] == chars@.subrange(fields@[0].0 as int, fields@[0].1 as int));
                    assert(f[1] == chars@.subrange(fields@[1].0 as int, fields@[1].1 as int));
                    assert(f[2] == chars@.subrange(fields@[2].0 as int, fields@[2].1 as int));
                    assert(f[3] == chars@.subrange(fields@[3].0 as int, fields@[3].1 as int));
                    assert(f[4] == chars@.subrange(fields@[4].0 as int, fields@[4].1 as int));
                }
            } else {
                proof {
                    if fields.len() >= 5 {
                        assert(f[3] == chars@.subrange(fields@[3].0 as int, fields@[3].1 as int));
                    }
                }
            }
            k += 1;
        }
        proof {
            assert(secs.subrange(0, sections@.len() as int) == secs);
        }
        goals
    }
}

impl Scenario {
    /// Reads a scenario text `description @ goals`: exactly one `@` must split
    /// it in two, else there is no scenario. The description is trimmed, the
    /// goals are read by `Goal::parse`, and the first goal is active.
    pub fn parse(string: &str) -> (r: Option<Scenario>)
        ensures
            r is Some <==> split_on(string@, '@').len() == 2,
            r matches Some(sc) ==> {
                &&& sc.initial_description@ == trim(split_on(string@, '@')[0])
                &&& sc.state@ == StateView::InProgress(0)
                &&& goal_views(sc.goals@) == parse_goals(split_on(string@, '@')[1])
            },
    {
        let chars = chars_of(string);
        let parts = split_ranges(&chars, 0, chars.len(), '@');
        proof {
            assert(chars@.subrange(0, chars@.len() as int) == chars@);
        }
        if parts.len() != 2 {
            return None;
        }
        let ghost p = pieces(chars@, parts@);
        let (a, b) = parts[0];
        let (c, d) = parts[1];
        assert(p[0] == chars@.subrange(a as int, b as int));
        assert(p[1] == chars@.subrange(c as int, d as int));
        let (ta, tb) = trim_range(&chars, a, b);
        let goals = Goal::parse(string.substring_char(c, d));
        Some(
            Scenario {
                initial_description: substring(string, ta, tb),
                state: ScenarioState::InProgress(0),
                goals,
            },
        )
    }
}

/// The phase that follows `p`; the story stays complete once it is.
pub open spec fn phase_after(p: StoryPhase) -> StoryPhase {
    match p {
        StoryPhase::Setup => StoryPhase::Start,
        StoryPhase::Start => StoryPhase::FinalConfrontation,
        StoryPhase::FinalConfrontation => StoryPhase::Complete,
        StoryPhase::Complete => StoryPhase::Complete,
    }
}

/// The grammar entry from which a phase's scenario text is generated.
pub open spec fn phase_key(p: StoryPhase) -> Seq<char> {
    match p {
        StoryPhase::Setup => "intro"@,
        StoryPhase::Start => "intro"@,
        StoryPhase::FinalConfrontation => "confrontation"@,
        StoryPhase::Complete => "complete"@,
    }
}

impl StoryPhase {
    /// The phase that follows.
    pub fn next(self) -> (r: StoryPhase)
        ensures
            r == phase_after(self),
    {
        match self {
            StoryPhase::Setup => StoryPhase::Start,
            StoryPhase::Start => StoryPhase::FinalConfrontation,
            StoryPhase::FinalConfrontation => StoryPhase::Complete,
            StoryPhase::Complete => StoryPhase::Complete,
        }
    }

    /// The grammar entry for this phase's scenario.
    pub fn scenario_key(self) -> (r: String)
        ensures
            r@ == phase_key(self),
    {
        match self {
            StoryPhase::Setup => String::from_str("intro"),
            StoryPhase::Start => String::from_str("intro"),
            StoryPhase::FinalConfrontation => String::from_str("confrontation"),
            StoryPhase::Complete => String::from_str("complete"),
        }
    }
}

/// A story: its phase and the scenarios played so far.
#[derive(Debug, Clone)]
pub struct Story {
    pub phase: StoryPhase,
    pub scenarios: Vec<Scenario>,
}

impl Story {
    /// A story at its start.
    pub fn new() -> (r: Story)
        ensures
            r.phase == StoryPhase::Setup,
            r.scenarios@.len() == 0,
    {
        Story { phase: StoryPhase::Setup, scenarios: Vec::new() }
    }

    /// Moves the story on: the previous scenario, if any, joins the record, the
    /// phase advances, and the result names the grammar entry from which the
    /// next scenario's text is generated.
    pub fn generate_next_scenario(&mut self, previous: Option<Scenario>) -> (r: String)
        ensures
            final(self).phase == phase_after(old(self).phase),
            final(self).scenarios@ == match previous {
                Some(s) => old(self).scenarios@.push(s),
                None => old(self).scenarios@,
            },
            r@ == phase_key(phase_after(old(self).phase)),
    {
        if let Some(s) = previous {
            self.scenarios.push(s);
        }
        self.phase = self.phase.next();
        self.phase.scenario_key()
    }
}

} // verus!
