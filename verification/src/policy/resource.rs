//! What one resource asks of admission and retention.

use crate::ids::LogicalResourceId;
use crate::manifest::ResourceRole;
use crate::ordered::{ascending, firsts, KeyMap};
use crate::policy::score::AdmissionScore;
use crate::positive::{PositiveU64, PositiveUsize};
use vstd::prelude::*;

verus! {

/// In which order inactive blocks of one lineage are evicted.
#[derive(Clone, Copy, Debug, PartialEq, Eq, Structural)]
pub enum LineageEviction {
    Fifo,
}

/// How a block manager orders its inactive blocks.
#[derive(Clone, Copy, Debug, PartialEq, Eq)]
pub enum InactiveBackendConfig {
    Lru,
    MultiLru { frequency_thresholds: [u8; 3] },
    Lineage { eviction: LineageEviction },
}

/// Why there is no score.
#[derive(Clone, Copy, Debug, PartialEq, Eq, Structural)]
pub enum AdmissionInputError {
    /// A resource has at least one physical component.
    NoComponents,
    ByteCountOverflow,
}

/// The sum of some byte counts.
pub open spec fn total_bytes(components: Seq<PositiveU64>) -> nat
    decreases components.len(),
{
    if components.len() == 0 {
        0
    } else {
        total_bytes(components.drop_last()) + components.last()@
    }
}

pub proof fn part_of_total(components: Seq<PositiveU64>, end: int)
    requires
        0 <= end <= components.len(),
    ensures
        total_bytes(components.subrange(0, end)) <= total_bytes(components),
    decreases components.len(),
{
    if end < components.len() {
        part_of_total(components.drop_last(), end);
        assert(components.drop_last().subrange(0, end) =~= components.subrange(0, end));
    } else {
        assert(components.subrange(0, end) =~= components);
    }
}

/// The facts that an admission decision is made from.
#[derive(Debug, PartialEq, Eq)]
pub struct AdmissionScoreInputs {
    hits: u64,
    component_bytes: Vec<PositiveU64>,
    total_bytes: PositiveU64,
    history_dependency_present: bool,
}

/// The mathematical content of an [`AdmissionScoreInputs`].
pub struct ScoreInputsView {
    pub hits: u64,
    pub components: Seq<PositiveU64>,
    pub history_dependency_present: bool,
}

impl View for AdmissionScoreInputs {
    type V = ScoreInputsView;

    closed spec fn view(&self) -> ScoreInputsView {
        ScoreInputsView {
            hits: self.hits,
            components: self.component_bytes@,
            history_dependency_present: self.history_dependency_present,
        }
    }
}

/// Whether some components make up an admission input, or why not.
pub open spec fn inputs_made(
    hits: u64,
    components: Seq<PositiveU64>,
    history_dependency_present: bool,
    r: Result<AdmissionScoreInputs, AdmissionInputError>,
) -> bool {
    match r {
        Ok(inputs) => {
            &&& components.len() > 0
            &&& total_bytes(components) <= u64::MAX
            &&& inputs@ == (ScoreInputsView { hits, components, history_dependency_present })
        },
        Err(e) => {
            &&& components.len() == 0 || total_bytes(components) > u64::MAX
            &&& e == if components.len() == 0 {
                AdmissionInputError::NoComponents
            } else {
                AdmissionInputError::ByteCountOverflow
            }
        },
    }
}

impl AdmissionScoreInputs {
    #[verifier::type_invariant]
    spec fn summed(self) -> bool {
        self.total_bytes@ == total_bytes(self.component_bytes@)
    }

    /// The facts of a resource whose history is there.
    pub fn complete(hits: u64, component_bytes: Vec<PositiveU64>) -> (r: Result<
        Self,
        AdmissionInputError,
    >)
        ensures
            inputs_made(hits, component_bytes@, true, r),
    {
        Self::new(hits, component_bytes, true)
    }

    /// The facts of a resource without the history it depends on.
    pub fn orphan(hits: u64, component_bytes: Vec<PositiveU64>) -> (r: Result<
        Self,
        AdmissionInputError,
    >)
        ensures
            inputs_made(hits, component_bytes@, false, r),
    {
        Self::new(hits, component_bytes, false)
    }

    fn new(hits: u64, component_bytes: Vec<PositiveU64>, history_dependency_present: bool) -> (r:
        Result<Self, AdmissionInputError>)
        ensures
            inputs_made(hits, component_bytes@, history_dependency_present, r),
    {
        if component_bytes.len() == 0 {
            return Err(AdmissionInputError::NoComponents);
        }
        let mut total: u64 = 0;
        let mut at: usize = 0;
        assert(total_bytes(component_bytes@.subrange(0, 0)) == 0);
        while at < component_bytes.len()
            invariant
                at <= component_bytes@.len(),
                component_bytes@.len() > 0,
                total == total_bytes(component_bytes@.subrange(0, at as int)),
                at > 0 ==> total > 0,
            decreases component_bytes@.len() - at,
        {
            proof {
                let more = component_bytes@.subrange(0, at + 1);
                assert(more.drop_last() =~= component_bytes@.subrange(0, at as int));
                assert(more.last() == component_bytes@[at as int]);
                part_of_total(component_bytes@, at + 1);
            }
            let bytes: u64 = component_bytes[at].get();
            match total.checked_add(bytes) {
                Some(sum) => {
                    total = sum;
                },
                None => {
                    return Err(AdmissionInputError::ByteCountOverflow);
                },
            }
            at = at + 1;
        }
        assert(component_bytes@.subrange(0, at as int) =~= component_bytes@);
        match PositiveU64::new(total) {
            Some(total_bytes) => Ok(
                AdmissionScoreInputs {
                    hits,
                    component_bytes,
                    total_bytes,
                    history_dependency_present,
                },
            ),
            None => Err(AdmissionInputError::NoComponents),
        }
    }

    pub fn score(&self) -> (r: AdmissionScore)
        ensures
            r.hit_count() == self@.hits,
            r.byte_count() == total_bytes(self@.components),
    {
        proof {
            use_type_invariant(self);
        }
        AdmissionScore::new(self.hits, self.total_bytes)
    }

    pub fn component_count(&self) -> (r: usize)
        ensures
            r == self@.components.len(),
    {
        self.component_bytes.len()
    }
}

/// What happens to a resource.
#[derive(Clone, Copy, Debug, PartialEq, Eq, Structural)]
pub enum RetentionDecision {
    Retain,
    Drop,
}

impl RetentionDecision {
    pub open spec fn text(self) -> Seq<char> {
        match self {
            RetentionDecision::Retain => "retain"@,
            RetentionDecision::Drop => "drop"@,
        }
    }
}

/// The label of a decision.
pub fn decision_label(decision: RetentionDecision) -> (r: &'static str)
    ensures
        r@ == decision.text(),
{
    match decision {
        RetentionDecision::Retain => "retain",
        RetentionDecision::Drop => "drop",
    }
}

/// Why it happens.
#[derive(Clone, Copy, Debug, PartialEq, Eq, Structural)]
pub enum RetentionReason {
    ByteNormalizedValue,
    BelowByteNormalizedThreshold,
    IncompleteAtomicResource,
    MissingHistoryDependency,
}

impl RetentionReason {
    pub open spec fn text(self) -> Seq<char> {
        match self {
            RetentionReason::ByteNormalizedValue => "byte_normalized_value"@,
            RetentionReason::BelowByteNormalizedThreshold => "below_byte_normalized_threshold"@,
            RetentionReason::IncompleteAtomicResource => "incomplete_atomic_resource"@,
            RetentionReason::MissingHistoryDependency => "missing_history_dependency"@,
        }
    }
}

/// The label of a reason.
pub fn reason_label(reason: RetentionReason) -> (r: &'static str)
    ensures
        r@ == reason.text(),
{
    match reason {
        RetentionReason::ByteNormalizedValue => "byte_normalized_value",
        RetentionReason::BelowByteNormalizedThreshold => "below_byte_normalized_threshold",
        RetentionReason::IncompleteAtomicResource => "incomplete_atomic_resource",
        RetentionReason::MissingHistoryDependency => "missing_history_dependency",
    }
}

/// A decision with its reason and the score behind it.
#[derive(Clone, Copy, Debug, PartialEq, Eq)]
pub struct RetentionOutcome {
    decision: RetentionDecision,
    reason: RetentionReason,
    score: AdmissionScore,
}

/// The mathematical content of a [`RetentionOutcome`].
pub struct OutcomeView {
    pub decision: RetentionDecision,
    pub reason: RetentionReason,
    pub hits: nat,
    pub bytes: nat,
}

impl View for RetentionOutcome {
    type V = OutcomeView;

    closed spec fn view(&self) -> OutcomeView {
        OutcomeView {
            decision: self.decision,
            reason: self.reason,
            hits: self.score.hit_count(),
            bytes: self.score.byte_count(),
        }
    }
}

impl RetentionOutcome {
    fn retain(score: AdmissionScore, reason: RetentionReason) -> (r: Self)
        ensures
            r@ == (OutcomeView {
                decision: RetentionDecision::Retain,
                reason,
                hits: score.hit_count(),
                bytes: score.byte_count(),
            }),
    {
        RetentionOutcome { decision: RetentionDecision::Retain, reason, score }
    }

    fn drop(score: AdmissionScore, reason: RetentionReason) -> (r: Self)
        ensures
            r@ == (OutcomeView {
                decision: RetentionDecision::Drop,
                reason,
                hits: score.hit_count(),
                bytes: score.byte_count(),
            }),
    {
        RetentionOutcome { decision: RetentionDecision::Drop, reason, score }
    }

    pub fn decision(self) -> (r: RetentionDecision)
        ensures
            r == self@.decision,
    {
        self.decision
    }

    pub fn reason(self) -> (r: RetentionReason)
        ensures
            r == self@.reason,
    {
        self.reason
    }

    pub fn score(self) -> (r: AdmissionScore)
        ensures
            r.hit_count() == self@.hits,
            r.byte_count() == self@.bytes,
    {
        self.score
    }
}

/// The mathematical content of a [`ResourcePolicy`].
pub struct PolicyView {
    pub role: ResourceRole,
    pub g1_inactive: InactiveBackendConfig,
    pub g2_inactive: InactiveBackendConfig,
    pub atomic_components: nat,
    pub minimum_hits_per_mib: u64,
    pub minimum_admission_hits_per_mib: u64,
}

impl PolicyView {
    /// Why a resource is kept or dropped under a density floor.
    pub open spec fn reason(self, input: ScoreInputsView, minimum: u64) -> RetentionReason {
        if input.components.len() != self.atomic_components {
            RetentionReason::IncompleteAtomicResource
        } else if self.role == ResourceRole::BoundaryCapsule && !input.history_dependency_present {
            RetentionReason::MissingHistoryDependency
        } else if input.hits * crate::policy::score::MIB < minimum * total_bytes(
            input.components,
        ) {
            RetentionReason::BelowByteNormalizedThreshold
        } else {
            RetentionReason::ByteNormalizedValue
        }
    }

    /// The outcome for a resource under a density floor.
    pub open spec fn evaluated(self, input: ScoreInputsView, minimum: u64) -> OutcomeView {
        OutcomeView {
            decision: if self.reason(input, minimum) == RetentionReason::ByteNormalizedValue {
                RetentionDecision::Retain
            } else {
                RetentionDecision::Drop
            },
            reason: self.reason(input, minimum),
            hits: input.hits as nat,
            bytes: total_bytes(input.components),
        }
    }
}

/// All policy for one resource.
#[derive(Debug, PartialEq, Eq)]
pub struct ResourcePolicy {
    role: ResourceRole,
    g1_inactive: InactiveBackendConfig,
    g2_inactive: InactiveBackendConfig,
    atomic_components: PositiveUsize,
    minimum_hits_per_mib: u64,
    minimum_admission_hits_per_mib: u64,
}

impl View for ResourcePolicy {
    type V = PolicyView;

    closed spec fn view(&self) -> PolicyView {
        PolicyView {
            role: self.role,
            g1_inactive: self.g1_inactive,
            g2_inactive: self.g2_inactive,
            atomic_components: self.atomic_components@,
            minimum_hits_per_mib: self.minimum_hits_per_mib,
            minimum_admission_hits_per_mib: self.minimum_admission_hits_per_mib,
        }
    }
}

impl ResourcePolicy {
    /// One component, and no density floor.
    pub fn new(
        role: ResourceRole,
        g1_inactive: InactiveBackendConfig,
        g2_inactive: InactiveBackendConfig,
    ) -> (r: Self)
        ensures
            r@ == (PolicyView {
                role,
                g1_inactive,
                g2_inactive,
                atomic_components: 1,
                minimum_hits_per_mib: 0,
                minimum_admission_hits_per_mib: 0,
            }),
    {
        ResourcePolicy {
            role,
            g1_inactive,
            g2_inactive,
            atomic_components: PositiveUsize::one(),
            minimum_hits_per_mib: 0,
            minimum_admission_hits_per_mib: 0,
        }
    }

    /// Asks for so many components to be admitted and evicted as one.
    pub fn with_atomic_components(self, components: PositiveUsize) -> (r: Self)
        ensures
            r@ == (PolicyView { atomic_components: components@, ..self@ }),
    {
        ResourcePolicy { atomic_components: components, ..self }
    }

    /// Asks for so many expected hits per mebibyte that is retained.
    pub fn with_minimum_hits_per_mib(self, minimum: u64) -> (r: Self)
        ensures
            r@ == (PolicyView { minimum_hits_per_mib: minimum, ..self@ }),
    {
        ResourcePolicy { minimum_hits_per_mib: minimum, ..self }
    }

    /// Asks for so many hits per mebibyte that is admitted, apart from retention.
    pub fn with_minimum_admission_hits_per_mib(self, minimum: u64) -> (r: Self)
        ensures
            r@ == (PolicyView { minimum_admission_hits_per_mib: minimum, ..self@ }),
    {
        ResourcePolicy { minimum_admission_hits_per_mib: minimum, ..self }
    }

    pub fn role(&self) -> (r: ResourceRole)
        ensures
            r == self@.role,
    {
        self.role
    }

    pub fn g1_inactive(&self) -> (r: &InactiveBackendConfig)
        ensures
            *r == self@.g1_inactive,
    {
        &self.g1_inactive
    }

    pub fn g2_inactive(&self) -> (r: &InactiveBackendConfig)
        ensures
            *r == self@.g2_inactive,
    {
        &self.g2_inactive
    }

    pub fn atomic_components(&self) -> (r: PositiveUsize)
        ensures
            r@ == self@.atomic_components,
    {
        self.atomic_components
    }

    pub fn minimum_hits_per_mib(&self) -> (r: u64)
        ensures
            r == self@.minimum_hits_per_mib,
    {
        self.minimum_hits_per_mib
    }

    pub fn minimum_admission_hits_per_mib(&self) -> (r: u64)
        ensures
            r == self@.minimum_admission_hits_per_mib,
    {
        self.minimum_admission_hits_per_mib
    }

    /// Whether retention needs to know how often blocks are reused.
    pub fn requires_g1_frequency_tracking(&self) -> (r: bool)
        ensures
            r == (self@.minimum_hits_per_mib > 0),
    {
        self.minimum_hits_per_mib > 0
    }

    /// Whether a resource may enter.
    pub fn evaluate_admission(&self, input: &AdmissionScoreInputs) -> (r: RetentionOutcome)
        ensures
            r@ == self@.evaluated(input@, self@.minimum_admission_hits_per_mib),
    {
        self.evaluate_with_minimum(input, self.minimum_admission_hits_per_mib)
    }

    /// Whether an admitted resource stays under pressure.
    pub fn evaluate(&self, input: &AdmissionScoreInputs) -> (r: RetentionOutcome)
        ensures
            r@ == self@.evaluated(input@, self@.minimum_hits_per_mib),
    {
        self.evaluate_with_minimum(input, self.minimum_hits_per_mib)
    }

    fn evaluate_with_minimum(&self, input: &AdmissionScoreInputs, minimum: u64) -> (r:
        RetentionOutcome)
        ensures
            r@ == self@.evaluated(input@, minimum),
    {
        let score = input.score();
        if input.component_count() != self.atomic_components.get() {
            return RetentionOutcome::drop(score, RetentionReason::IncompleteAtomicResource);
        }
        if self.role == ResourceRole::BoundaryCapsule && !input.history_dependency_present {
            return RetentionOutcome::drop(score, RetentionReason::MissingHistoryDependency);
        }
        if !score.meets_hits_per_mib(minimum) {
            return RetentionOutcome::drop(score, RetentionReason::BelowByteNormalizedThreshold);
        }
        RetentionOutcome::retain(score, RetentionReason::ByteNormalizedValue)
    }
}

/// A resource that has a policy already.
#[derive(Clone, Copy, Debug, PartialEq, Eq, Structural)]
pub struct DuplicateResourcePolicy {
    pub resource: LogicalResourceId,
}

/// Policies by resource.
#[derive(Debug)]
pub struct ResourcePolicies {
    policies: KeyMap<LogicalResourceId, ResourcePolicy>,
}

impl View for ResourcePolicies {
    type V = Map<LogicalResourceId, PolicyView>;

    closed spec fn view(&self) -> Map<LogicalResourceId, PolicyView> {
        self.policies@.map_values(|policy: ResourcePolicy| policy@)
    }
}

impl ResourcePolicies {
    pub fn new() -> (r: Self)
        ensures
            r@ == Map::<LogicalResourceId, PolicyView>::empty(),
    {
        let r = ResourcePolicies { policies: KeyMap::new() };
        assert(r@ =~= Map::<LogicalResourceId, PolicyView>::empty());
        r
    }

    /// Adds the policy of a resource that has none.
    pub fn insert(&mut self, resource: LogicalResourceId, policy: ResourcePolicy) -> (r: Result<
        (),
        DuplicateResourcePolicy,
    >)
        ensures
            r is Ok <==> !old(self)@.contains_key(resource),
            r is Ok ==> final(self)@ == old(self)@.insert(resource, policy@),
            r is Err ==> final(self)@ == old(self)@ && r->Err_0 == (DuplicateResourcePolicy {
                resource,
            }),
    {
        if self.policies.contains_key(&resource) {
            return Err(DuplicateResourcePolicy { resource });
        }
        self.policies.insert(resource, policy);
        assert(self@ =~= old(self)@.insert(resource, policy@));
        Ok(())
    }

    pub fn get(&self, resource: LogicalResourceId) -> (r: Option<&ResourcePolicy>)
        ensures
            r is Some <==> self@.contains_key(resource),
            r is Some ==> r->Some_0@ == self@[resource],
    {
        self.policies.get(&resource)
    }

    /// The resources, in ascending order.
    pub fn resources(&self) -> (r: Vec<LogicalResourceId>)
        ensures
            ascending(r@),
            r@.to_set() == self@.dom(),
    {
        let r = self.policies.keys();
        assert(self@.dom() =~= self.policies@.dom());
        r
    }

    /// Every resource with its policy, in resource order.
    pub fn iter(&self) -> (r: Vec<(LogicalResourceId, &ResourcePolicy)>)
        ensures
            ascending(firsts(r@)),
            firsts(r@).to_set() == self@.dom(),
            forall|i: int| 0 <= i < r@.len() ==> (#[trigger] r@[i]).1@ == self@[r@[i].0],
    {
        let keys = self.resources();
        let mut entries: Vec<(LogicalResourceId, &ResourcePolicy)> = Vec::new();
        let mut at: usize = 0;
        while at < keys.len()
            invariant
                at <= keys@.len(),
                keys@.to_set() == self@.dom(),
                firsts(entries@) == keys@.subrange(0, at as int),
                entries@.len() == at,
                forall|i: int|
                    0 <= i < entries@.len() ==> (#[trigger] entries@[i]).1@
                        == self@[entries@[i].0],
            decreases keys@.len() - at,
        {
            assert(keys@.to_set().contains(keys@[at as int]));
            if let Some(policy) = self.get(keys[at]) {
                entries.push((keys[at], policy));
            }
            at = at + 1;
            assert(firsts(entries@) =~= keys@.subrange(0, at as int));
        }
        assert(firsts(entries@) =~= keys@);
        entries
    }

    pub fn is_empty(&self) -> (r: bool)
        ensures
            r == (self@ == Map::<LogicalResourceId, PolicyView>::empty()),
    {
        let r = self.policies.is_empty();
        proof {
            if r {
                assert(self@ =~= Map::<LogicalResourceId, PolicyView>::empty());
            } else if self@ == Map::<LogicalResourceId, PolicyView>::empty() {
                assert(self.policies@.dom() =~= self@.dom());
                assert(self.policies@ =~= Map::<LogicalResourceId, ResourcePolicy>::empty());
            }
        }
        r
    }
}

/// A capsule without its history is never kept, however often it is hit.
pub proof fn orphan_capsules_are_never_retained(
    policy: PolicyView,
    input: ScoreInputsView,
    minimum: u64,
)
    requires
        policy.role == ResourceRole::BoundaryCapsule,
        !input.history_dependency_present,
    ensures
        policy.evaluated(input, minimum).decision == RetentionDecision::Drop,
{
}

/// A resource is never kept with only some of its components.
pub proof fn partial_resources_are_never_retained(
    policy: PolicyView,
    input: ScoreInputsView,
    minimum: u64,
)
    requires
        input.components.len() != policy.atomic_components,
    ensures
        policy.evaluated(input, minimum).decision == RetentionDecision::Drop,
        policy.evaluated(input, minimum).reason == RetentionReason::IncompleteAtomicResource,
{
}

/// Of two complete resources with equal hits, the larger one is kept only where the smaller is.
pub proof fn retention_favours_smaller_resources(
    policy: PolicyView,
    small: ScoreInputsView,
    large: ScoreInputsView,
    minimum: u64,
)
    requires
        small.hits == large.hits,
        small.components.len() == large.components.len(),
        small.history_dependency_present == large.history_dependency_present,
        total_bytes(small.components) <= total_bytes(large.components),
        policy.evaluated(large, minimum).decision == RetentionDecision::Retain,
    ensures
        policy.evaluated(small, minimum).decision == RetentionDecision::Retain,
{
    let (s, l, m) = (
        total_bytes(small.components) as int,
        total_bytes(large.components) as int,
        minimum as int,
    );
    assert(m * s <= m * l) by (nonlinear_arith)
        requires
            0 <= m,
            s <= l,
    ;
}

/// Byte counts add up: the total of two lists in a row is the total of the one and of the other,
/// and the total of one component is its count.
pub proof fn byte_counts_add_up(first: Seq<PositiveU64>, second: Seq<PositiveU64>)
    ensures
        total_bytes(first + second) == total_bytes(first) + total_bytes(second),
        first.len() == 1 ==> total_bytes(first) == first[0]@,
        first.len() == 0 ==> total_bytes(first) == 0,
    decreases second.len(),
{
    if second.len() == 0 {
        assert(first + second =~= first);
    } else {
        byte_counts_add_up(first, second.drop_last());
        assert((first + second).drop_last() =~= first + second.drop_last());
        assert((first + second).last() == second.last());
    }
    if first.len() == 1 {
        assert(first.drop_last().len() == 0);
        assert(total_bytes(first.drop_last()) == 0);
    }
}

/// A resource is kept exactly if all of its components are there, a capsule has its history, and
/// each mebibyte has the hits that are asked for; otherwise it is dropped for the first of these
/// that fails.
pub proof fn resources_are_kept_where_they_are_whole_and_dense(
    policy: PolicyView,
    input: ScoreInputsView,
    minimum: u64,
)
    ensures
        ({
            let outcome = policy.evaluated(input, minimum);
            let whole = input.components.len() == policy.atomic_components;
            let backed = policy.role is PrefixHistory || input.history_dependency_present;
            let dense = input.hits * 1_048_576 >= minimum * total_bytes(input.components);
            &&& outcome.decision is Retain <==> whole && backed && dense
            &&& outcome.reason is ByteNormalizedValue <==> whole && backed && dense
            &&& outcome.reason is IncompleteAtomicResource <==> !whole
            &&& outcome.reason is MissingHistoryDependency <==> whole && !backed
            &&& outcome.reason is BelowByteNormalizedThreshold <==> whole && backed && !dense
            &&& outcome.hits == input.hits
            &&& outcome.bytes == total_bytes(input.components)
        }),
{
}

/// Some components make up the facts of an admission exactly if there is one and their bytes can be
/// counted; the facts are then the ones given.
pub proof fn facts_need_countable_components(
    hits: u64,
    components: Seq<PositiveU64>,
    history_dependency_present: bool,
    r: Result<AdmissionScoreInputs, AdmissionInputError>,
)
    requires
        inputs_made(hits, components, history_dependency_present, r),
    ensures
        r is Ok <==> components.len() > 0 && total_bytes(components) <= u64::MAX,
        r is Err ==> (r->Err_0 is NoComponents <==> components.len() == 0),
        r is Ok ==> {
            &&& r->Ok_0@.hits == hits
            &&& r->Ok_0@.components == components
            &&& r->Ok_0@.history_dependency_present == history_dependency_present
        },
{
}

} // verus!
