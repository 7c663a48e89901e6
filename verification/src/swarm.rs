//! Swarm formations: the kinds of formation, pattern and optimisation,
//! the choice of a formation for a task, and the choice of agents for a
//! hierarchy or a mesh.
use vstd::prelude::*;
use crate::tasks::TaskPriority;

verus! {

/// Shape of a group of agents working on a task.
#[derive(Debug, Clone, Copy, PartialEq, Eq, Structural)]
pub enum FormationType {
    /// Sequential processing.
    Chain,
    /// A central coordinator with workers.
    Star,
    /// A fully connected network.
    Mesh,
    /// A tree-like structure.
    Hierarchy,
    /// A circular formation.
    Ring,
}

/// Kind of a behaviour that emerged in a formation.
#[derive(Debug, Clone, Copy, PartialEq, Eq, Structural)]
pub enum PatternType {
    LeadershipEmergence,
    SpecializationDivision,
    CommunicationOptimization,
    ResourceSharing,
    CollectiveLearning,
    AdaptiveReorganization,
}

/// What an optimisation strategy improves.
#[derive(Debug, Clone, Copy, PartialEq, Eq, Structural)]
pub enum OptimizationFunction {
    PerformanceMaximization,
    EfficiencyOptimization,
    AdaptabilityEnhancement,
    LearningAcceleration,
    CollaborationImprovement,
}

/// Kind of a change made to a formation.
#[derive(Debug, Clone, Copy, PartialEq, Eq, Structural)]
pub enum ChangeType {
    AgentReassignment,
    FormationRestructure,
    ParameterAdjustment,
    BehaviorModification,
}

/// Priority of an optimisation recommendation.
#[derive(Debug, Clone, Copy, PartialEq, Eq, Structural)]
pub enum RecommendationPriority {
    Low,
    Medium,
    High,
    Critical,
}

/// The formation for a task before its complexity is considered.
pub open spec fn base_formation(priority: TaskPriority, agents: nat) -> FormationType {
    if priority == TaskPriority::Critical && agents >= 3 {
        FormationType::Star
    } else if priority == TaskPriority::High && agents >= 5 {
        FormationType::Hierarchy
    } else if priority == TaskPriority::Medium && agents >= 3 {
        FormationType::Chain
    } else if priority == TaskPriority::Low && agents >= 4 {
        FormationType::Mesh
    } else if agents >= 3 {
        FormationType::Ring
    } else {
        FormationType::Chain
    }
}

/// The formation for a task of `priority` with `agents` available agents
/// and `required_capabilities` required capabilities: by priority and
/// group size, and, for a task needing more than five capabilities, a chain
/// becomes a hierarchy and a ring a star.
pub open spec fn spec_formation(priority: TaskPriority, agents: nat, required_capabilities: nat) -> FormationType {
    let f = base_formation(priority, agents);
    if required_capabilities > 5 {
        match f {
            FormationType::Chain => FormationType::Hierarchy,
            FormationType::Ring => FormationType::Star,
            other => other,
        }
    } else {
        f
    }
}

/// Chooses the formation for a task; see `spec_formation`.
pub fn determine_optimal_formation(priority: TaskPriority, agents: usize, required_capabilities: usize) -> (r: FormationType)
    ensures
        r == spec_formation(priority, agents as nat, required_capabilities as nat),
        agents < 3 ==> r == (if required_capabilities > 5 { FormationType::Hierarchy } else { FormationType::Chain }),
        r == FormationType::Star ==> agents >= 3,
{
    let f = match priority {
        TaskPriority::Critical if agents >= 3 => FormationType::Star,
        TaskPriority::High if agents >= 5 => FormationType::Hierarchy,
        TaskPriority::Medium if agents >= 3 => FormationType::Chain,
        TaskPriority::Low if agents >= 4 => FormationType::Mesh,
        _ => if agents >= 3 { FormationType::Ring } else { FormationType::Chain },
    };
    if required_capabilities > 5 {
        match f {
            FormationType::Chain => FormationType::Hierarchy,
            FormationType::Ring => FormationType::Star,
            other => other,
        }
    } else {
        f
    }
}

/// The formation chosen for each kind of task. With fewer than three
/// agents the group is a chain (a hierarchy when more than five
/// capabilities are required). With enough agents: a critical task forms a
/// star (three or more), a high-priority one a hierarchy (five or more), a
/// medium one a chain (a hierarchy with many capabilities), a low one a mesh
/// (four or more); any other group of three or more is a ring (a star with
/// many capabilities).
pub proof fn lemma_formation_choice(priority: TaskPriority, agents: nat, required_capabilities: nat)
    ensures
        agents < 3 && required_capabilities <= 5 ==> spec_formation(priority, agents, required_capabilities)
            == FormationType::Chain,
        agents < 3 && required_capabilities > 5 ==> spec_formation(priority, agents, required_capabilities)
            == FormationType::Hierarchy,
        priority == TaskPriority::Critical && agents >= 3 ==> spec_formation(priority, agents, required_capabilities)
            == FormationType::Star,
        priority == TaskPriority::High && agents >= 5 ==> spec_formation(priority, agents, required_capabilities)
            == FormationType::Hierarchy,
        priority == TaskPriority::High && 3 <= agents < 5 ==> spec_formation(priority, agents, required_capabilities)
            == if required_capabilities > 5 { FormationType::Star } else { FormationType::Ring },
        priority == TaskPriority::Medium && agents >= 3 ==> spec_formation(priority, agents, required_capabilities)
            == if required_capabilities > 5 { FormationType::Hierarchy } else { FormationType::Chain },
        priority == TaskPriority::Low && agents >= 4 ==> spec_formation(priority, agents, required_capabilities)
            == FormationType::Mesh,
        priority == TaskPriority::Low && agents == 3 ==> spec_formation(priority, agents, required_capabilities)
            == if required_capabilities > 5 { FormationType::Star } else { FormationType::Ring },
        spec_formation(priority, agents, required_capabilities) == FormationType::Star ==> agents >= 3,
{
}

/// The role of an agent as formation selection sees it.
#[derive(Debug, Clone, Copy, PartialEq, Eq, Structural)]
pub enum AgentRole {
    Coordinator,
    Specialist,
    /// Any other kind, told apart by a code.
    Other(u8),
}

/// What formation selection knows of an agent.
#[derive(Debug, Clone, Copy, PartialEq, Eq, Structural)]
pub struct AgentProfile {
    pub role: AgentRole,
    pub experiences: usize,
}

/// Whether `i` is the last agent with the most experiences among those
/// satisfying `p`.
pub open spec fn is_last_max(s: Seq<AgentProfile>, p: spec_fn(AgentProfile) -> bool, i: int) -> bool {
    &&& 0 <= i < s.len()
    &&& p(s[i])
    &&& forall|j: int| 0 <= j < s.len() && p(#[trigger] s[j]) ==> s[j].experiences <= s[i].experiences
    &&& forall|j: int| i < j < s.len() && p(#[trigger] s[j]) ==> s[j].experiences < s[i].experiences
}

/// Whether an agent is a coordinator.
pub open spec fn coordinator() -> spec_fn(AgentProfile) -> bool {
    |a: AgentProfile| a.role == AgentRole::Coordinator
}

/// Any agent.
pub open spec fn any_agent() -> spec_fn(AgentProfile) -> bool {
    |a: AgentProfile| true
}

/// Whether an agent may be a sub-leader: a specialist, or one with more
/// than 50 experiences.
pub open spec fn sub_leader_like(a: AgentProfile) -> bool {
    a.role == AgentRole::Specialist || a.experiences > 50
}

fn last_max(s: &Vec<AgentProfile>, coordinators_only: bool) -> (r: Option<usize>)
    ensures
        match r {
            Some(i) => is_last_max(s@, if coordinators_only { coordinator() } else { any_agent() }, i as int),
            None => forall|j: int| 0 <= j < s@.len() ==> !(if coordinators_only { coordinator() } else { any_agent() })(#[trigger] s@[j]),
        },
{
    let ghost p = if coordinators_only { coordinator() } else { any_agent() };
    let mut best: Option<usize> = None;
    let mut i: usize = 0;
    while i < s.len()
        invariant
            i <= s@.len(),
            p == (if coordinators_only { coordinator() } else { any_agent() }),
            match best {
                Some(b) => b < i && p(s@[b as int])
                    && (forall|j: int| 0 <= j < i && p(#[trigger] s@[j]) ==> s@[j].experiences <= s@[b as int].experiences)
                    && (forall|j: int| b < j < i && p(#[trigger] s@[j]) ==> s@[j].experiences < s@[b as int].experiences),
                None => forall|j: int| 0 <= j < i ==> !p(#[trigger] s@[j]),
            },
        decreases s@.len() - i,
    {
        let qualifies = !coordinators_only || s[i].role == AgentRole::Coordinator;
        proof {
            assert(qualifies == p(s@[i as int]));
        }
        if qualifies {
            match best {
                Some(b) => {
                    if s[i].experiences >= s[b].experiences {
                        best = Some(i);
                    }
                },
                None => {
                    best = Some(i);
                },
            }
        }
        i = i + 1;
    }
    best
}

/// The positions, in order, of the first `k` agents that satisfy `p` and
/// are not in `taken`.
pub open spec fn first_free(s: Seq<AgentProfile>, taken: Seq<int>, p: spec_fn(AgentProfile) -> bool, k: nat) -> Seq<int> {
    let all = Seq::new(s.len(), |i: int| i).filter(|i: int| p(s[i]) && !taken.contains(i));
    if all.len() <= k { all } else { all.take(k as int) }
}

fn pick_free(s: &Vec<AgentProfile>, taken: &Vec<usize>, sub_leaders: bool, k: usize) -> (r: Vec<usize>)
    ensures
        r@.map_values(|x: usize| x as int) == first_free(
            s@,
            taken@.map_values(|x: usize| x as int),
            if sub_leaders { |a: AgentProfile| sub_leader_like(a) } else { any_agent() },
            k as nat,
        ),
{
    let ghost p = if sub_leaders { |a: AgentProfile| sub_leader_like(a) } else { any_agent() };
    let ghost t = taken@.map_values(|x: usize| x as int);
    let ghost f = |i: int| p(s@[i]) && !t.contains(i);
    let ghost idx = Seq::new(s@.len(), |i: int| i);
    let mut out: Vec<usize> = Vec::new();
    let mut i: usize = 0;
    while i < s.len() && out.len() < k
        invariant
            i <= s@.len(),
            out@.len() <= k,
            idx == Seq::new(s@.len(), |i: int| i),
            f == (|i: int| p(s@[i]) && !t.contains(i)),
            p == (if sub_leaders { |a: AgentProfile| sub_leader_like(a) } else { any_agent() }),
            t == taken@.map_values(|x: usize| x as int),
            out@.map_values(|x: usize| x as int) == idx.take(i as int).filter(f),
        decreases s@.len() - i,
    {
        let mut is_taken = false;
        let mut j: usize = 0;
        while j < taken.len()
            invariant
                j <= taken@.len(),
                t == taken@.map_values(|x: usize| x as int),
                is_taken == exists|q: int| 0 <= q < j && t[q] == i as int,
            decreases taken@.len() - j,
        {
            proof {
                assert(t[j as int] == taken@[j as int] as int);
            }
            if taken[j] == i {
                is_taken = true;
            }
            j = j + 1;
        }
        let ok = if sub_leaders {
            s[i].role == AgentRole::Specialist || s[i].experiences > 50
        } else {
            true
        };
        let ghost before = out@;
        proof {
            assert(idx.take(i + 1) =~= idx.take(i as int).push(i as int));
            idx.take(i as int).lemma_filter_push(i as int, f);
            assert(is_taken == t.contains(i as int));
            assert(ok == p(s@[i as int]));
        }
        if ok && !is_taken {
            out.push(i);
            proof {
                assert(out@.map_values(|x: usize| x as int) =~= before.map_values(|x: usize| x as int).push(i as int));
            }
        }
        i = i + 1;
    }
    proof {
        let all = idx.filter(f);
        if out@.len() < k {
            assert(idx.take(i as int) =~= idx);
        } else {
            lemma_filter_take_prefix(idx, f, i as int, k as nat);
        }
    }
    out
}

proof fn lemma_filter_take_prefix(idx: Seq<int>, f: spec_fn(int) -> bool, i: int, k: nat)
    requires
        0 <= i <= idx.len(),
        idx.take(i).filter(f).len() == k,
    ensures
        (if idx.filter(f).len() <= k { idx.filter(f) } else { idx.filter(f).take(k as int) }) == idx.take(i).filter(f),
{
    broadcast use vstd::seq_lib::group_filter_ensures;
    assert(idx =~= idx.take(i) + idx.skip(i));
    Seq::filter_distributes_over_add(idx.take(i), idx.skip(i), f);
    let a = idx.take(i).filter(f);
    let b = idx.skip(i).filter(f);
    assert(idx.filter(f) == a + b);
    if idx.filter(f).len() <= k {
        assert(b.len() == 0);
        assert(a + b =~= a);
    } else {
        assert((a + b).take(k as int) =~= a);
    }
}

/// The agents of a hierarchy: a leader (the coordinator with the most
/// experiences, or, with no coordinator, the agent with the most; the last
/// such when tied), then up to two sub-leaders (specialists or agents with
/// more than 50 experiences), then up to three workers, each group taken
/// in agent order among the agents not yet chosen.
pub fn select_hierarchy_formation(agents: &Vec<AgentProfile>) -> (r: Vec<usize>)
    ensures
        agents@.len() == 0 ==> r@.len() == 0,
        agents@.len() > 0 ==> r@.len() >= 1 && (if exists|j: int| 0 <= j < agents@.len() && coordinator()(agents@[j]) {
            is_last_max(agents@, coordinator(), r@[0] as int)
        } else {
            is_last_max(agents@, any_agent(), r@[0] as int)
        }),
        agents@.len() > 0 ==> r@.map_values(|x: usize| x as int) == seq![r@[0] as int]
            + first_free(agents@, seq![r@[0] as int], |a: AgentProfile| sub_leader_like(a), 2)
            + first_free(
                agents@,
                seq![r@[0] as int] + first_free(agents@, seq![r@[0] as int], |a: AgentProfile| sub_leader_like(a), 2),
                any_agent(),
                3,
            ),
{
    let leader = match last_max(agents, true) {
        Some(i) => Some(i),
        None => last_max(agents, false),
    };
    match leader {
        None => {
            proof {
                if agents@.len() > 0 {
                    assert(any_agent()(agents@[0]));
                }
            }
            Vec::new()
        },
        Some(l) => {
            let mut selected: Vec<usize> = Vec::new();
            selected.push(l);
            let subs = pick_free(agents, &selected, true, 2);
            let ghost sel1 = selected@;
            let mut k: usize = 0;
            while k < subs.len()
                invariant
                    k <= subs@.len(),
                    selected@ == sel1 + subs@.take(k as int),
                decreases subs@.len() - k,
            {
                selected.push(subs[k]);
                k = k + 1;
                proof {
                    assert(selected@ =~= sel1 + subs@.take(k as int));
                }
            }
            proof {
                assert(subs@.take(k as int) =~= subs@);
            }
            let workers = pick_free(agents, &selected, false, 3);
            let ghost sel2 = selected@;
            let mut w: usize = 0;
            while w < workers.len()
                invariant
                    w <= workers@.len(),
                    selected@ == sel2 + workers@.take(w as int),
                decreases workers@.len() - w,
            {
                selected.push(workers[w]);
                w = w + 1;
                proof {
                    assert(selected@ =~= sel2 + workers@.take(w as int));
                }
            }
            proof {
                assert(workers@.take(w as int) =~= workers@);
                assert(sel1.map_values(|x: usize| x as int) =~= seq![l as int]);
                assert(sel2.map_values(|x: usize| x as int) =~= seq![l as int] + subs@.map_values(|x: usize| x as int));
                assert(selected@.map_values(|x: usize| x as int) =~= sel2.map_values(|x: usize| x as int)
                    + workers@.map_values(|x: usize| x as int));
            }
            selected
        },
    }
}

/// The agents of a mesh: in agent order, an agent joins when its kind is
/// not yet in the mesh or the mesh has fewer than three agents, stopping
/// at five.
pub open spec fn mesh_selection(s: Seq<AgentProfile>) -> Seq<int>
    decreases s.len(),
{
    if s.len() == 0 {
        Seq::empty()
    } else {
        let prev = mesh_selection(s.drop_last());
        let i = s.len() - 1;
        let used = exists|q: int| 0 <= q < prev.len() && #[trigger] s[prev[q]].role == s[i].role;
        if prev.len() >= 5 || (used && prev.len() >= 3) {
            prev
        } else {
            prev.push(i)
        }
    }
}

proof fn lemma_mesh_selection_bounds(s: Seq<AgentProfile>)
    ensures
        mesh_selection(s).len() <= 5,
        forall|q: int| 0 <= q < mesh_selection(s).len() ==> 0 <= #[trigger] mesh_selection(s)[q] < s.len(),
    decreases s.len(),
{
    if s.len() > 0 {
        lemma_mesh_selection_bounds(s.drop_last());
        let prev = mesh_selection(s.drop_last());
        assert forall|q: int| 0 <= q < mesh_selection(s).len() implies 0 <= #[trigger] mesh_selection(s)[q] < s.len() by {
            if q < prev.len() {
                assert(mesh_selection(s)[q] == prev[q]);
            }
        }
    }
}

proof fn lemma_mesh_prefix(s: Seq<AgentProfile>, i: int)
    requires
        0 <= i < s.len(),
    ensures
        mesh_selection(s.take(i + 1)) == ({
            let prev = mesh_selection(s.take(i));
            let used = exists|q: int| 0 <= q < prev.len() && #[trigger] s[prev[q]].role == s[i].role;
            if prev.len() >= 5 || (used && prev.len() >= 3) { prev } else { prev.push(i) }
        }),
{
    assert(s.take(i + 1).drop_last() =~= s.take(i));
    lemma_mesh_selection_bounds(s.take(i));
    let prev = mesh_selection(s.take(i));
    assert forall|q: int| 0 <= q < prev.len() implies s.take(i + 1)[prev[q]] == s[prev[q]] by {
        assert(0 <= #[trigger] prev[q] < i);
    }
    let u1 = exists|q: int| 0 <= q < prev.len() && #[trigger] s.take(i + 1)[prev[q]].role == s.take(i + 1)[i].role;
    let u2 = exists|q: int| 0 <= q < prev.len() && #[trigger] s[prev[q]].role == s[i].role;
    assert(u1 == u2) by {
        if u1 {
            let q = choose|q: int| 0 <= q < prev.len() && #[trigger] s.take(i + 1)[prev[q]].role == s.take(i + 1)[i].role;
            assert(s.take(i + 1)[prev[q]] == s[prev[q]]);
        }
        if u2 {
            let q = choose|q: int| 0 <= q < prev.len() && #[trigger] s[prev[q]].role == s[i].role;
            assert(s.take(i + 1)[prev[q]] == s[prev[q]]);
        }
    }
}

/// Chooses the agents of a mesh; see `mesh_selection`.
pub fn select_mesh_formation(agents: &Vec<AgentProfile>) -> (r: Vec<usize>)
    ensures
        r@.map_values(|x: usize| x as int) == mesh_selection(agents@),
        r@.len() <= 5,
{
    let mut out: Vec<usize> = Vec::new();
    let mut i: usize = 0;
    while i < agents.len() && out.len() < 5
        invariant
            i <= agents@.len(),
            out@.map_values(|x: usize| x as int) == mesh_selection(agents@.take(i as int)),
            out@.len() <= 5,
            forall|q: int| 0 <= q < out@.len() ==> #[trigger] out@[q] < i,
        decreases agents@.len() - i,
    {
        let mut used = false;
        let mut q: usize = 0;
        while q < out.len()
            invariant
                q <= out@.len(),
                i < agents@.len(),
                forall|z: int| 0 <= z < out@.len() ==> #[trigger] out@[z] < i,
                used == exists|z: int| 0 <= z < q && #[trigger] agents@[out@[z] as int].role == agents@[i as int].role,
            decreases out@.len() - q,
        {
            if agents[out[q]].role == agents[i].role {
                used = true;
            }
            q = q + 1;
        }
        let ghost before = out@;
        proof {
            lemma_mesh_prefix(agents@, i as int);
            let prev = mesh_selection(agents@.take(i as int));
            assert(prev == before.map_values(|x: usize| x as int));
            let u2 = exists|z: int| 0 <= z < prev.len() && #[trigger] agents@[prev[z]].role == agents@[i as int].role;
            assert(used == u2) by {
                if used {
                    let z = choose|z: int| 0 <= z < q && #[trigger] agents@[out@[z] as int].role == agents@[i as int].role;
                    assert(prev[z] == out@[z] as int);
                }
                if u2 {
                    let z = choose|z: int| 0 <= z < prev.len() && #[trigger] agents@[prev[z]].role == agents@[i as int].role;
                    assert(prev[z] == out@[z] as int);
                }
            }
        }
        if !used || out.len() < 3 {
            out.push(i);
            proof {
                assert(out@.map_values(|x: usize| x as int) =~= before.map_values(|x: usize| x as int).push(i as int));
            }
        }
        i = i + 1;
    }
    proof {
        if i < agents@.len() {
            lemma_mesh_rest_unchanged(agents@, i as int);
        } else {
            assert(agents@.take(i as int) =~= agents@);
        }
    }
    out
}

proof fn lemma_mesh_rest_unchanged(s: Seq<AgentProfile>, i: int)
    requires
        0 <= i <= s.len(),
        mesh_selection(s.take(i)).len() >= 5,
    ensures
        mesh_selection(s) == mesh_selection(s.take(i)),
    decreases s.len() - i,
{
    if i < s.len() {
        lemma_mesh_prefix(s, i);
        lemma_mesh_rest_unchanged(s, i + 1);
    } else {
        assert(s.take(i) =~= s);
    }
}

/// The built-in optimisation strategies: performance maximisation for star
/// and hierarchy formations, efficiency optimisation for mesh and ring.
pub fn default_strategies() -> (r: Vec<(OptimizationFunction, Vec<FormationType>)>)
    ensures
        r@.len() == 2,
        r@[0].0 == OptimizationFunction::PerformanceMaximization,
        r@[0].1@ == seq![FormationType::Star, FormationType::Hierarchy],
        r@[1].0 == OptimizationFunction::EfficiencyOptimization,
        r@[1].1@ == seq![FormationType::Mesh, FormationType::Ring],
{
    let mut a: Vec<FormationType> = Vec::new();
    a.push(FormationType::Star);
    a.push(FormationType::Hierarchy);
    let mut b: Vec<FormationType> = Vec::new();
    b.push(FormationType::Mesh);
    b.push(FormationType::Ring);
    proof {
        assert(a@ =~= seq![FormationType::Star, FormationType::Hierarchy]);
        assert(b@ =~= seq![FormationType::Mesh, FormationType::Ring]);
    }
    let mut r: Vec<(OptimizationFunction, Vec<FormationType>)> = Vec::new();
    r.push((OptimizationFunction::PerformanceMaximization, a));
    r.push((OptimizationFunction::EfficiencyOptimization, b));
    r
}

/// A recommendation for the optimised swarm system.
pub struct SwarmRecommendation {
    pub category: String,
    pub priority: RecommendationPriority,
    pub description: String,
    pub estimated_improvement: String,
}

/// The text fields of a recommendation: category, description, estimated
/// improvement.
pub open spec fn recommendation_text(r: SwarmRecommendation) -> (Seq<char>, Seq<char>, Seq<char>) {
    (r.category@, r.description@, r.estimated_improvement@)
}

pub open spec fn throughput_advice() -> (Seq<char>, Seq<char>, Seq<char>) {
    ("Throughput"@,
     "Throughput is below target. Consider increasing worker threads or optimizing task processing."@,
     "20-30% throughput increase"@)
}

pub open spec fn memory_advice() -> (Seq<char>, Seq<char>, Seq<char>) {
    ("Memory"@, "Memory pool efficiency is low. Review object reuse patterns."@, "10-15% memory reduction"@)
}

pub open spec fn cpu_advice() -> (Seq<char>, Seq<char>, Seq<char>) {
    ("CPU"@,
     "CPU load is high. Consider scaling up workers or optimizing task distribution."@,
     "15-25% load reduction"@)
}

/// The recommendations, in order, with their priorities: throughput under
/// target (high), memory pool efficiency low (medium), CPU load high (high).
pub open spec fn spec_swarm_recommendations(low_throughput: bool, low_memory_efficiency: bool, high_cpu_load: bool) -> Seq<(
    (Seq<char>, Seq<char>, Seq<char>),
    RecommendationPriority,
)> {
    (if low_throughput { seq![(throughput_advice(), RecommendationPriority::High)] } else { Seq::empty() })
        + (if low_memory_efficiency { seq![(memory_advice(), RecommendationPriority::Medium)] } else { Seq::empty() })
        + (if high_cpu_load { seq![(cpu_advice(), RecommendationPriority::High)] } else { Seq::empty() })
}

fn recommendation(category: &str, priority: RecommendationPriority, description: &str, improvement: &str) -> (r:
    SwarmRecommendation)
    ensures
        recommendation_text(r) == (category@, description@, improvement@),
        r.priority == priority,
{
    SwarmRecommendation {
        category: category.to_string(),
        priority,
        description: description.to_string(),
        estimated_improvement: improvement.to_string(),
    }
}

/// The optimisation recommendations of the swarm system for what its
/// measures show.
pub fn swarm_recommendations(low_throughput: bool, low_memory_efficiency: bool, high_cpu_load: bool) -> (r: Vec<
    SwarmRecommendation,
>)
    ensures
        r@.map_values(|x: SwarmRecommendation| (recommendation_text(x), x.priority))
            == spec_swarm_recommendations(low_throughput, low_memory_efficiency, high_cpu_load),
{
    let mut out: Vec<SwarmRecommendation> = Vec::new();
    if low_throughput {
        out.push(recommendation(
            "Throughput",
            RecommendationPriority::High,
            "Throughput is below target. Consider increasing worker threads or optimizing task processing.",
            "20-30% throughput increase",
        ));
    }
    if low_memory_efficiency {
        out.push(recommendation(
            "Memory",
            RecommendationPriority::Medium,
            "Memory pool efficiency is low. Review object reuse patterns.",
            "10-15% memory reduction",
        ));
    }
    if high_cpu_load {
        out.push(recommendation(
            "CPU",
            RecommendationPriority::High,
            "CPU load is high. Consider scaling up workers or optimizing task distribution.",
            "15-25% load reduction",
        ));
    }
    proof {
        assert(out@.map_values(|x: SwarmRecommendation| (recommendation_text(x), x.priority))
            =~= spec_swarm_recommendations(low_throughput, low_memory_efficiency, high_cpu_load));
    }
    out
}

} // verus!
