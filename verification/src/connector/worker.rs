//! What a worker still has to register, resource by resource.

use crate::connector::layout::{
    LayoutConfig, ResourceTierConfig, UnregisteredPrimary, WorkerCacheConfig, WorkerView,
};
use crate::ids::LogicalResourceId;
use crate::ordered::{ascending, firsts, key_order, key_order_is_unique, KeyMap};
use vstd::prelude::*;

verus! {

/// A tier of one resource's blocks.
#[derive(Clone, Copy, Debug, PartialEq, Eq, Structural)]
pub enum LogicalLayoutHandle {
    G1,
    G2,
    G3,
}

/// A resource that was registered before.
#[derive(Clone, Copy, Debug, PartialEq, Eq, Structural)]
pub struct AlreadyRegistered {
    pub resource: LogicalResourceId,
}

/// The layouts that a worker has announced.
#[derive(Debug)]
pub struct PendingWorkerResources {
    primary: LogicalResourceId,
    resources: KeyMap<LogicalResourceId, LayoutConfig>,
}

/// The mathematical content of a [`PendingWorkerResources`].
pub struct PendingView {
    pub primary: LogicalResourceId,
    pub resources: Map<LogicalResourceId, LayoutConfig>,
}

impl View for PendingWorkerResources {
    type V = PendingView;

    closed spec fn view(&self) -> PendingView {
        PendingView { primary: self.primary, resources: self.resources@ }
    }
}

/// The layers of some layouts, together.
pub open spec fn layers_of(
    layouts: Map<LogicalResourceId, LayoutConfig>,
    ids: Seq<LogicalResourceId>,
) -> nat
    decreases ids.len(),
{
    if ids.len() == 0 {
        0
    } else {
        layers_of(layouts, ids.drop_last()) + layouts[ids.last()].num_layers as nat
    }
}

proof fn part_of_layers(
    layouts: Map<LogicalResourceId, LayoutConfig>,
    ids: Seq<LogicalResourceId>,
    end: int,
)
    requires
        0 <= end <= ids.len(),
    ensures
        layers_of(layouts, ids.subrange(0, end)) <= layers_of(layouts, ids),
    decreases ids.len(),
{
    if end < ids.len() {
        part_of_layers(layouts, ids.drop_last(), end);
        assert(ids.drop_last().subrange(0, end) =~= ids.subrange(0, end));
    } else {
        assert(ids.subrange(0, end) =~= ids);
    }
}

/// What a worker sets up: the primary resource with its share of the lower tiers, then the others
/// in resource order, up to the first one that the leader gave no share.
#[derive(Debug)]
pub struct InitializationPlan {
    pub primary_tier: ResourceTierConfig,
    pub additional: Vec<(LogicalResourceId, ResourceTierConfig)>,
    pub missing: Option<LogicalResourceId>,
}

/// A primary resource that is not registered.
#[derive(Clone, Copy, Debug, PartialEq, Eq, Structural)]
pub struct PrimaryNotRegistered {
    pub primary: LogicalResourceId,
}

impl PendingWorkerResources {
    pub fn new(primary: LogicalResourceId) -> (r: Self)
        ensures
            r@ == (PendingView { primary, resources: Map::empty() }),
    {
        PendingWorkerResources { primary, resources: KeyMap::new() }
    }

    /// Announces a resource. A second announcement takes the place of the first, and is refused.
    pub fn insert(&mut self, resource: LogicalResourceId, layout: LayoutConfig) -> (r: Result<
        (),
        AlreadyRegistered,
    >)
        ensures
            final(self)@ == (PendingView {
                resources: old(self)@.resources.insert(resource, layout),
                ..old(self)@
            }),
            r is Ok <==> !old(self)@.resources.contains_key(resource),
            r is Err ==> r->Err_0 == (AlreadyRegistered { resource }),
    {
        match self.resources.insert(resource, layout) {
            None => Ok(()),
            Some(_) => Err(AlreadyRegistered { resource }),
        }
    }

    pub fn primary(&self) -> (r: LogicalResourceId)
        ensures
            r == self@.primary,
    {
        self.primary
    }

    /// The registration of everything announced so far, under no manifest yet.
    pub fn config(&self) -> (r: Result<WorkerCacheConfig, UnregisteredPrimary>)
        ensures
            r is Ok <==> self@.resources.contains_key(self@.primary),
            r is Ok ==> r->Ok_0@ == (WorkerView {
                manifest: None,
                primary: self@.primary,
                resources: self@.resources,
            }),
            r is Err ==> r->Err_0 == (UnregisteredPrimary { primary: self@.primary }),
    {
        let config = WorkerCacheConfig {
            manifest: None,
            primary: self.primary,
            resources: self.resources.copied(),
        };
        match config.validate() {
            Ok(()) => Ok(config),
            Err(e) => Err(e),
        }
    }

    /// The layers of all announced resources.
    pub fn num_layers(&self) -> (r: usize)
        requires
            layers_of(self@.resources, key_order(self@.resources.dom())) <= usize::MAX,
        ensures
            r == layers_of(self@.resources, key_order(self@.resources.dom())),
    {
        let ids = self.resources.keys();
        let mut layers: usize = 0;
        let mut at: usize = 0;
        proof {
            key_order_is_unique(ids@);
        }
        assert(ids@.subrange(0, 0) =~= Seq::<LogicalResourceId>::empty());
        while at < ids.len()
            invariant
                at <= ids@.len(),
                ids@.to_set() == self.resources@.dom(),
                layers_of(self.resources@, ids@) <= usize::MAX,
                layers == layers_of(self.resources@, ids@.subrange(0, at as int)),
            decreases ids@.len() - at,
        {
            proof {
                let more = ids@.subrange(0, at + 1);
                assert(more.drop_last() =~= ids@.subrange(0, at as int));
                assert(more.last() == ids@[at as int]);
                part_of_layers(self.resources@, ids@, at + 1);
                assert(ids@.to_set().contains(ids@[at as int]));
            }
            let layout = *self.resources.get(&ids[at]).unwrap();
            layers = layers + layout.num_layers;
            at = at + 1;
        }
        assert(ids@.subrange(0, at as int) =~= ids@);
        layers
    }

    /// What is to be set up, given the shares that the leader gave to resources and the shares
    /// that a primary resource without one falls back to.
    pub fn complete_initialization(
        &self,
        tiers: &KeyMap<LogicalResourceId, ResourceTierConfig>,
        fallback: ResourceTierConfig,
    ) -> (r: Result<InitializationPlan, PrimaryNotRegistered>)
        ensures
            r is Ok <==> self@.resources.contains_key(self@.primary),
            r is Err ==> r->Err_0 == (PrimaryNotRegistered { primary: self@.primary }),
            r is Ok ==> {
                let plan = r->Ok_0;
                let others = self@.resources.dom().remove(self@.primary);
                let set_up = firsts(plan.additional@);
                &&& plan.primary_tier == if tiers@.contains_key(self@.primary) {
                    tiers@[self@.primary]
                } else {
                    fallback
                }
                &&& ascending(set_up)
                &&& forall|i: int|
                    0 <= i < plan.additional@.len() ==> {
                        let (resource, tier) = #[trigger] plan.additional@[i];
                        &&& others.contains(resource)
                        &&& tiers@.contains_key(resource)
                        &&& tier == tiers@[resource]
                    }
                &&& match plan.missing {
                    None => set_up.to_set() == others,
                    Some(missing) => {
                        &&& others.contains(missing)
                        &&& !tiers@.contains_key(missing)
                        &&& forall|k: LogicalResourceId|
                            set_up.contains(k) <==> #[trigger] others.contains(k) && k.0
                                < missing.0
                    },
                }
            },
    {
        if !self.resources.contains_key(&self.primary) {
            return Err(PrimaryNotRegistered { primary: self.primary });
        }
        let primary_tier = match tiers.get(&self.primary) {
            Some(tier) => *tier,
            None => fallback,
        };
        let ghost others = self@.resources.dom().remove(self@.primary);
        let ids = self.resources.keys();
        let mut additional: Vec<(LogicalResourceId, ResourceTierConfig)> = Vec::new();
        let mut at: usize = 0;
        while at < ids.len()
            invariant
                at <= ids@.len(),
                ascending(ids@),
                ids@.to_set() == self.resources@.dom(),
                others == self.resources@.dom().remove(self.primary),
                self.resources@.contains_key(self.primary),
                primary_tier == if tiers@.contains_key(self.primary) {
                    tiers@[self.primary]
                } else {
                    fallback
                },
                ascending(firsts(additional@)),
                forall|i: int|
                    0 <= i < additional@.len() ==> {
                        let (resource, tier) = #[trigger] additional@[i];
                        &&& others.contains(resource)
                        &&& tiers@.contains_key(resource)
                        &&& tier == tiers@[resource]
                    },
                forall|k: LogicalResourceId|
                    firsts(additional@).contains(k) <==> #[trigger] others.contains(k)
                        && crate::ordered::occurs_before(ids@, at as int, k),
            decreases ids@.len() - at,
        {
            let resource = ids[at];
            let ghost before = additional@;
            proof {
                assert(ids@.to_set().contains(resource));
                crate::onboard::plan::occurrence_grows(ids@, at as int);
            }
            if resource != self.primary {
                match tiers.get(&resource) {
                    Some(tier) => {
                        additional.push((resource, *tier));
                        proof {
                            let a = firsts(before);
                            let b = firsts(additional@);
                            assert(b =~= a.push(resource));
                            assert forall|i: int, j: int|
                                #![trigger b[i], b[j]]
                                0 <= i < j < b.len() implies b[i].0 < b[j].0 by {
                                if j == a.len() {
                                    assert(a.contains(a[i]));
                                    assert(others.contains(a[i]));
                                    let x = choose|x: int|
                                        0 <= x < at && #[trigger] ids@[x] == a[i];
                                    assert(ids@[x].0 < ids@[at as int].0);
                                } else {
                                    assert(a[i].0 < a[j].0);
                                }
                            }
                            assert forall|k: LogicalResourceId| b.contains(k) <==> a.contains(k)
                                || k == resource by {
                                if a.contains(k) {
                                    let i = choose|i: int| 0 <= i < a.len() && a[i] == k;
                                    assert(b[i] == k);
                                }
                                if b.contains(k) {
                                    let i = choose|i: int| 0 <= i < b.len() && b[i] == k;
                                    if i < a.len() {
                                        assert(a[i] == k);
                                    }
                                }
                                assert(b[a.len() as int] == resource);
                            }
                        }
                    },
                    None => {
                        proof {
                            assert forall|k: LogicalResourceId|
                                firsts(additional@).contains(k) <==> #[trigger] others.contains(k)
                                    && k.0 < resource.0 by {
                                if others.contains(k) {
                                    assert(ids@.to_set().contains(k));
                                    let i = choose|i: int| 0 <= i < ids@.len() && ids@[i] == k;
                                    if i < at {
                                        assert(ids@[i].0 < ids@[at as int].0);
                                        assert(crate::ordered::occurs_before(ids@, at as int, k));
                                    } else if i > at {
                                        assert(ids@[at as int].0 < ids@[i].0);
                                        if crate::ordered::occurs_before(ids@, at as int, k) {
                                            let x = choose|x: int|
                                                0 <= x < at && #[trigger] ids@[x] == k;
                                            assert(ids@[x].0 < ids@[i].0);
                                        }
                                    } else if crate::ordered::occurs_before(ids@, at as int, k) {
                                        let x = choose|x: int|
                                            0 <= x < at && #[trigger] ids@[x] == k;
                                        assert(ids@[x].0 < ids@[i].0);
                                    }
                                }
                            }
                        }
                        return Ok(
                            InitializationPlan {
                                primary_tier,
                                additional,
                                missing: Some(resource),
                            },
                        );
                    },
                }
            }
            at = at + 1;
        }
        proof {
            let set_up = firsts(additional@);
            assert forall|k: LogicalResourceId| set_up.to_set().contains(k) <==> others.contains(
                k,
            ) by {
                assert(set_up.contains(k) <==> set_up.to_set().contains(k));
                assert(ids@.contains(k) <==> ids@.to_set().contains(k));
                assert(ids@.contains(k) <==> crate::ordered::occurs_before(ids@, at as int, k));
                if set_up.contains(k) {
                    let i = choose|i: int| 0 <= i < set_up.len() && set_up[i] == k;
                    assert(additional@[i].0 == k);
                }
            }
            assert(set_up.to_set() =~= others);
        }
        Ok(InitializationPlan { primary_tier, additional, missing: None })
    }
}

/// The tiers that one resource gets, with their blocks.
#[derive(Debug)]
pub struct LayoutPlan {
    pub host_blocks: Option<usize>,
    pub disk_blocks: Option<usize>,
    pub created: Vec<LogicalLayoutHandle>,
}

/// The tiers that a resource beside the primary one gets: the device always, the host unless it is
/// bypassed, the disk where it has a share.
pub fn additional_layouts(tier: ResourceTierConfig, bypass_host: bool) -> (r: LayoutPlan)
    ensures
        r.host_blocks == if bypass_host {
            None
        } else {
            Some(tier.host_block_count)
        },
        r.disk_blocks == tier.disk_block_count,
        r.created@ == seq![LogicalLayoutHandle::G1] + (if bypass_host {
            Seq::<LogicalLayoutHandle>::empty()
        } else {
            seq![LogicalLayoutHandle::G2]
        }) + (if tier.disk_block_count is Some {
            seq![LogicalLayoutHandle::G3]
        } else {
            Seq::<LogicalLayoutHandle>::empty()
        }),
{
    let mut created: Vec<LogicalLayoutHandle> = Vec::new();
    created.push(LogicalLayoutHandle::G1);
    let host_blocks = if bypass_host {
        None
    } else {
        created.push(LogicalLayoutHandle::G2);
        Some(tier.host_block_count)
    };
    if tier.disk_block_count.is_some() {
        created.push(LogicalLayoutHandle::G3);
    }
    let r = LayoutPlan { host_blocks, disk_blocks: tier.disk_block_count, created };
    assert(r.created@ =~= seq![LogicalLayoutHandle::G1] + (if bypass_host {
        Seq::<LogicalLayoutHandle>::empty()
    } else {
        seq![LogicalLayoutHandle::G2]
    }) + (if tier.disk_block_count is Some {
        seq![LogicalLayoutHandle::G3]
    } else {
        Seq::<LogicalLayoutHandle>::empty()
    }));
    r
}

/// A list of tiers with those of another that it does not hold yet.
pub open spec fn with_layouts(
    created: Seq<LogicalLayoutHandle>,
    more: Seq<LogicalLayoutHandle>,
) -> Seq<LogicalLayoutHandle>
    decreases more.len(),
{
    if more.len() == 0 {
        created
    } else {
        let before = with_layouts(created, more.drop_last());
        if before.contains(more.last()) {
            before
        } else {
            before.push(more.last())
        }
    }
}

/// Adds the tiers of one resource to those that were created before, each once.
pub fn merge_created_layouts(
    created: &mut Vec<LogicalLayoutHandle>,
    more: &[LogicalLayoutHandle],
)
    ensures
        final(created)@ == with_layouts(old(created)@, more@),
{
    let mut at: usize = 0;
    assert(more@.subrange(0, 0) =~= Seq::<LogicalLayoutHandle>::empty());
    while at < more.len()
        invariant
            at <= more@.len(),
            created@ == with_layouts(old(created)@, more@.subrange(0, at as int)),
        decreases more@.len() - at,
    {
        let layout = more[at];
        proof {
            let next = more@.subrange(0, at + 1);
            assert(next.drop_last() =~= more@.subrange(0, at as int));
            assert(next.last() == layout);
        }
        let found = contains_layout(created.as_slice(), layout);
        if !found {
            created.push(layout);
        }
        at = at + 1;
    }
    assert(more@.subrange(0, at as int) =~= more@);
}

fn contains_layout(created: &[LogicalLayoutHandle], layout: LogicalLayoutHandle) -> (r: bool)
    ensures
        r == created@.contains(layout),
{
    let mut at: usize = 0;
    while at < created.len()
        invariant
            at <= created@.len(),
            forall|i: int| 0 <= i < at ==> created@[i] != layout,
        decreases created@.len() - at,
    {
        if created[at] == layout {
            assert(created@[at as int] == layout);
            return true;
        }
        at = at + 1;
    }
    false
}

/// The layers of some resources are those of each of them together.
pub proof fn layers_add_up(
    layouts: Map<LogicalResourceId, LayoutConfig>,
    first: Seq<LogicalResourceId>,
    second: Seq<LogicalResourceId>,
)
    ensures
        layers_of(layouts, first + second) == layers_of(layouts, first) + layers_of(
            layouts,
            second,
        ),
        first.len() == 1 ==> layers_of(layouts, first) == layouts[first[0]].num_layers,
        first.len() == 0 ==> layers_of(layouts, first) == 0,
    decreases second.len(),
{
    if second.len() == 0 {
        assert(first + second =~= first);
    } else {
        layers_add_up(layouts, first, second.drop_last());
        assert((first + second).drop_last() =~= first + second.drop_last());
        assert((first + second).last() == second.last());
    }
    if first.len() == 1 {
        assert(first.drop_last().len() == 0);
        assert(layers_of(layouts, first.drop_last()) == 0);
    }
}

/// Merging tiers keeps those that were there in their places and adds exactly the missing ones, each
/// once.
pub proof fn merged_tiers_are_listed_once(
    created: Seq<LogicalLayoutHandle>,
    more: Seq<LogicalLayoutHandle>,
)
    requires
        created.no_duplicates(),
    ensures
        created.is_prefix_of(with_layouts(created, more)),
        with_layouts(created, more).no_duplicates(),
        forall|layout: LogicalLayoutHandle| #[trigger]
            with_layouts(created, more).contains(layout) <==> created.contains(layout)
                || more.contains(layout),
    decreases more.len(),
{
    if more.len() > 0 {
        let rest = more.drop_last();
        let before = with_layouts(created, rest);
        let after = with_layouts(created, more);
        merged_tiers_are_listed_once(created, rest);
        assert forall|layout: LogicalLayoutHandle| #[trigger]
            after.contains(layout) <==> created.contains(layout) || more.contains(layout) by {
            assert(more.contains(layout) <==> rest.contains(layout) || layout == more.last()) by {
                if rest.contains(layout) {
                    let i = choose|i: int| 0 <= i < rest.len() && rest[i] == layout;
                    assert(more[i] == layout);
                }
                if more.contains(layout) {
                    let i = choose|i: int| 0 <= i < more.len() && more[i] == layout;
                    if i < rest.len() {
                        assert(rest[i] == layout);
                    }
                }
                assert(more[more.len() - 1] == more.last());
            }
            assert(before.contains(layout) <==> created.contains(layout) || rest.contains(layout));
            if !before.contains(more.last()) {
                assert(after[before.len() as int] == more.last());
                if before.contains(layout) {
                    let i = choose|i: int| 0 <= i < before.len() && before[i] == layout;
                    assert(after[i] == layout);
                }
                if after.contains(layout) {
                    let i = choose|i: int| 0 <= i < after.len() && after[i] == layout;
                    if i < before.len() {
                        assert(before[i] == layout);
                    }
                }
            }
        }
    }
}

} // verus!
