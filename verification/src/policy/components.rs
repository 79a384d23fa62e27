//! The physical components that one logical block of a resource is made of.

use crate::ids::LogicalResourceId;
use crate::ordered::{ascending, firsts, KeyMap};
use crate::positive::PositiveU64;
use vstd::prelude::*;

verus! {

/// Why component widths are refused.
#[derive(Clone, Copy, Debug, PartialEq, Eq, Structural)]
pub enum ResourceComponentBytesError {
    NoComponents { resource: LogicalResourceId },
    DuplicateResource { resource: LogicalResourceId },
}

/// The bytes of every component of one block, by resource.
#[derive(Debug)]
pub struct ResourceComponentBytes {
    widths: KeyMap<LogicalResourceId, Vec<PositiveU64>>,
}

impl View for ResourceComponentBytes {
    type V = Map<LogicalResourceId, Seq<PositiveU64>>;

    closed spec fn view(&self) -> Map<LogicalResourceId, Seq<PositiveU64>> {
        self.widths@.map_values(|components: Vec<PositiveU64>| components@)
    }
}

impl ResourceComponentBytes {
    pub fn new() -> (r: Self)
        ensures
            r@ == Map::<LogicalResourceId, Seq<PositiveU64>>::empty(),
    {
        let r = ResourceComponentBytes { widths: KeyMap::new() };
        assert(r@ =~= Map::<LogicalResourceId, Seq<PositiveU64>>::empty());
        r
    }

    /// Adds a resource once, with at least one component.
    pub fn insert(&mut self, resource: LogicalResourceId, components: Vec<PositiveU64>) -> (r:
        Result<(), ResourceComponentBytesError>)
        ensures
            match r {
                Ok(()) => {
                    &&& !old(self)@.contains_key(resource)
                    &&& components@.len() > 0
                    &&& final(self)@ == old(self)@.insert(resource, components@)
                },
                Err(e) => {
                    &&& final(self)@ == old(self)@
                    &&& old(self)@.contains_key(resource) || components@.len() == 0
                    &&& e == if old(self)@.contains_key(resource) {
                        ResourceComponentBytesError::DuplicateResource { resource }
                    } else {
                        ResourceComponentBytesError::NoComponents { resource }
                    }
                },
            },
    {
        if self.widths.contains_key(&resource) {
            return Err(ResourceComponentBytesError::DuplicateResource { resource });
        }
        if components.len() == 0 {
            return Err(ResourceComponentBytesError::NoComponents { resource });
        }
        self.widths.insert(resource, components);
        assert(self@ =~= old(self)@.insert(resource, components@));
        Ok(())
    }

    pub fn get(&self, resource: LogicalResourceId) -> (r: Option<&[PositiveU64]>)
        ensures
            r is Some <==> self@.contains_key(resource),
            r is Some ==> r->Some_0@ == self@[resource],
    {
        match self.widths.get(&resource) {
            Some(components) => Some(components.as_slice()),
            None => None,
        }
    }

    /// The resources, in ascending order.
    pub fn resources(&self) -> (r: Vec<LogicalResourceId>)
        ensures
            ascending(r@),
            r@.to_set() == self@.dom(),
    {
        let r = self.widths.keys();
        assert(self@.dom() =~= self.widths@.dom());
        r
    }

    /// Every resource with its components, in resource order.
    pub fn iter(&self) -> (r: Vec<(LogicalResourceId, &[PositiveU64])>)
        ensures
            ascending(firsts(r@)),
            firsts(r@).to_set() == self@.dom(),
            forall|i: int| 0 <= i < r@.len() ==> (#[trigger] r@[i]).1@ == self@[r@[i].0],
    {
        let keys = self.resources();
        let mut entries: Vec<(LogicalResourceId, &[PositiveU64])> = Vec::new();
        let mut at: usize = 0;
        while at < keys.len()
            invariant
                at <= keys@.len(),
                keys@.to_set() == self@.dom(),
                firsts(entries@) == keys@.subrange(0, at as int),
                entries@.len() == at,
                forall|i: int|
                    0 <= i < entries@.len() ==> (#[trigger] entries@[i]).1@
                        == self@[entries@[i].0],
            decreases keys@.len() - at,
        {
            assert(keys@.to_set().contains(keys@[at as int]));
            if let Some(components) = self.get(keys[at]) {
                entries.push((keys[at], components));
            }
            at = at + 1;
            assert(firsts(entries@) =~= keys@.subrange(0, at as int));
        }
        assert(firsts(entries@) =~= keys@);
        entries
    }
}

} // verus!
