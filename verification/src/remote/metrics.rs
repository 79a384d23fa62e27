//! What a remote pull reports of itself.

use crate::ids::LogicalResourceId;
use crate::ordered::{ascending, firsts, KeyMap};
use crate::remote::search::BundlePullOutcome;
use vstd::prelude::*;

verus! {

/// The labels under which one pull is counted.
#[derive(Clone, Copy, Debug, PartialEq, Eq)]
pub struct PullLabels {
    pub transaction: &'static str,
    pub resource_outcome: &'static str,
    pub reason: &'static str,
}

/// The bytes that each resource of one pull has moved.
#[derive(Debug)]
pub struct PullMetrics {
    transferred_bytes: KeyMap<LogicalResourceId, u64>,
}

impl View for PullMetrics {
    type V = Map<LogicalResourceId, u64>;

    closed spec fn view(&self) -> Map<LogicalResourceId, u64> {
        self.transferred_bytes@
    }
}

impl PullMetrics {
    /// Starts every resource at zero bytes.
    pub fn new(resources: &[LogicalResourceId]) -> (r: Self)
        ensures
            r@.dom() == resources@.to_set(),
            forall|resource: LogicalResourceId| #[trigger] r@.contains_key(resource) ==> r@[resource]
                == 0,
    {
        let mut transferred_bytes: KeyMap<LogicalResourceId, u64> = KeyMap::new();
        let mut at: usize = 0;
        while at < resources.len()
            invariant
                at <= resources@.len(),
                forall|resource: LogicalResourceId| #[trigger]
                    transferred_bytes@.contains_key(resource)
                        <==> crate::ordered::occurs_before(resources@, at as int, resource),
                forall|resource: LogicalResourceId| #[trigger]
                    transferred_bytes@.contains_key(resource) ==> transferred_bytes@[resource] == 0,
            decreases resources@.len() - at,
        {
            let ghost before = transferred_bytes@;
            transferred_bytes.insert(resources[at], 0);
            proof {
                assert forall|resource: LogicalResourceId| #[trigger]
                    transferred_bytes@.contains_key(resource)
                        <==> crate::ordered::occurs_before(resources@, at + 1, resource) by {
                    assert(transferred_bytes@.contains_key(resource) <==> before.contains_key(
                        resource,
                    ) || resource == resources@[at as int]);
                    if crate::ordered::occurs_before(resources@, at as int, resource) {
                        let i = choose|i: int| 0 <= i < at && #[trigger] resources@[i] == resource;
                        assert(resources@[i] == resource);
                    }
                    if crate::ordered::occurs_before(resources@, at + 1, resource) {
                        let i = choose|i: int|
                            0 <= i < at + 1 && #[trigger] resources@[i] == resource;
                        if i < at {
                            assert(crate::ordered::occurs_before(resources@, at as int, resource));
                        }
                    }
                }
            }
            at = at + 1;
        }
        proof {
            assert forall|resource: LogicalResourceId|
                transferred_bytes@.dom().contains(resource) <==> resources@.to_set().contains(
                    resource,
                ) by {
                assert(transferred_bytes@.contains_key(resource)
                    <==> crate::ordered::occurs_before(resources@, at as int, resource));
                assert(resources@.contains(resource) <==> resources@.to_set().contains(resource));
            }
            assert(transferred_bytes@.dom() =~= resources@.to_set());
        }
        PullMetrics { transferred_bytes }
    }

    /// Notes the bytes of a resource that the pull knows; others are ignored.
    pub fn observe_transferred_bytes(&mut self, resource: LogicalResourceId, bytes: u64)
        ensures
            final(self)@ == if old(self)@.contains_key(resource) {
                old(self)@.insert(resource, bytes)
            } else {
                old(self)@
            },
    {
        if self.transferred_bytes.contains_key(&resource) {
            self.transferred_bytes.insert(resource, bytes);
        }
    }

    /// The labels of a finished pull; `None` stands for one that ended in an internal error.
    pub fn labels(result: Option<BundlePullOutcome>) -> (r: PullLabels)
        ensures
            match result {
                Some(BundlePullOutcome::Pulled(_)) => r.transaction@ == "commit"@
                    && r.resource_outcome@ == "committed"@ && r.reason@ == "complete"@,
                Some(BundlePullOutcome::Miss(reason)) => r.transaction@ == "abort"@
                    && r.resource_outcome@ == "aborted"@ && r.reason@ == reason.label(),
                None => r.transaction@ == "abort"@ && r.resource_outcome@ == "aborted"@
                    && r.reason@ == "internal_error"@,
            },
    {
        match result {
            Some(BundlePullOutcome::Pulled(_)) => PullLabels {
                transaction: "commit",
                resource_outcome: "committed",
                reason: "complete",
            },
            Some(BundlePullOutcome::Miss(reason)) => PullLabels {
                transaction: "abort",
                resource_outcome: "aborted",
                reason: reason.as_label(),
            },
            None => PullLabels {
                transaction: "abort",
                resource_outcome: "aborted",
                reason: "internal_error",
            },
        }
    }

    /// The bytes of every resource, in resource order.
    pub fn record(self) -> (r: Vec<(LogicalResourceId, u64)>)
        ensures
            ascending(firsts(r@)),
            firsts(r@).to_set() == self@.dom(),
            forall|i: int| 0 <= i < r@.len() ==> self@[(#[trigger] r@[i]).0] == r@[i].1,
    {
        self.transferred_bytes.into_entries()
    }
}

} // verus!
