//! Which engine moves the blocks of which resource.

use crate::ids::{BlockId, LogicalResourceId, SequenceHash};
use crate::ordered::{distinct_up_to, firsts, pairs_map, pairs_map_holds_the_pairs, KeyMap};
use vstd::prelude::*;

verus! {

/// Why a resource has no engine.
#[derive(Clone, Copy, Debug, PartialEq, Eq, Structural)]
pub enum RouteError {
    DuplicateEngine,
    /// The primary resource has no engine.
    MissingPrimary { primary: LogicalResourceId },
    /// A resource has no engine.
    NoRoute { resource: LogicalResourceId },
}

/// Offload engines by resource.
#[derive(Debug)]
pub struct OffloadRoutes<E> {
    primary: LogicalResourceId,
    engines: KeyMap<LogicalResourceId, E>,
}

impl<E> OffloadRoutes<E> {
    pub closed spec fn primary_resource(&self) -> LogicalResourceId {
        self.primary
    }

    pub closed spec fn routes(&self) -> Map<LogicalResourceId, E> {
        self.engines@
    }

    /// The primary resource has an engine.
    pub open spec fn wf(&self) -> bool {
        self.routes().contains_key(self.primary_resource())
    }

    /// One engine for the default resource.
    pub fn new(engine: E) -> (r: Self)
        ensures
            r.wf(),
            r.primary_resource() == LogicalResourceId(0),
            r.routes() == Map::<LogicalResourceId, E>::empty().insert(LogicalResourceId(0), engine),
    {
        let primary = LogicalResourceId(0);
        let mut engines: KeyMap<LogicalResourceId, E> = KeyMap::new();
        engines.insert(primary, engine);
        OffloadRoutes { primary, engines }
    }

    /// Engines for several resources, one each, the primary one among them.
    pub fn from_resources(
        primary: LogicalResourceId,
        engines: Vec<(LogicalResourceId, E)>,
    ) -> (r: Result<Self, RouteError>)
        ensures
            ({
                let ids = firsts(engines@);
                let distinct = distinct_up_to(ids, ids.len() as int);
                match r {
                    Ok(routes) => {
                        &&& distinct
                        &&& ids.contains(primary)
                        &&& routes.wf()
                        &&& routes.primary_resource() == primary
                        &&& routes.routes() == pairs_map(engines@)
                    },
                    Err(e) => {
                        &&& !(distinct && ids.contains(primary))
                        &&& e == if !distinct {
                            RouteError::DuplicateEngine
                        } else {
                            RouteError::MissingPrimary { primary }
                        }
                    },
                }
            }),
    {
        proof {
            pairs_map_holds_the_pairs(engines@);
            assert(firsts(engines@).contains(primary) <==> firsts(engines@).to_set().contains(
                primary,
            ));
        }
        let ghost listed = engines@;
        let engines = match KeyMap::from_entries(engines) {
            Ok(engines) => engines,
            Err(_) => {
                proof {
                    let ids = firsts(listed);
                    let at = choose|at: int| #[trigger] crate::ordered::first_repeat(ids, at);
                    let i = choose|i: int| 0 <= i < at && #[trigger] ids[i] == ids[at];
                    assert(ids[i] == ids[at]);
                }
                return Err(RouteError::DuplicateEngine);
            },
        };
        if !engines.contains_key(&primary) {
            return Err(RouteError::MissingPrimary { primary });
        }
        Ok(OffloadRoutes { primary, engines })
    }

    pub fn primary_engine(&self) -> (r: &E)
        requires
            self.wf(),
        ensures
            *r == self.routes()[self.primary_resource()],
    {
        self.engines.get(&self.primary).unwrap()
    }

    pub fn supports_resource(&self, resource: LogicalResourceId) -> (r: bool)
        ensures
            r == self.routes().contains_key(resource),
    {
        self.engines.contains_key(&resource)
    }

    /// The engine for a resource, or the primary engine where none is named.
    pub fn route(&self, resource: Option<LogicalResourceId>) -> (r: Result<&E, RouteError>)
        ensures
            ({
                let resource = match resource {
                    Some(resource) => resource,
                    None => self.primary_resource(),
                };
                match r {
                    Ok(engine) => self.routes().contains_key(resource) && *engine
                        == self.routes()[resource],
                    Err(e) => !self.routes().contains_key(resource) && e == (RouteError::NoRoute {
                        resource,
                    }),
                }
            }),
    {
        let resource = match resource {
            Some(resource) => resource,
            None => self.primary,
        };
        match self.engines.get(&resource) {
            Some(engine) => Ok(engine),
            None => Err(RouteError::NoRoute { resource }),
        }
    }
}

/// A block of the upper tier with the hash it is saved under.
#[derive(Clone, Copy, Debug, PartialEq, Eq, Structural)]
pub struct ExternalBlock {
    pub block_id: BlockId,
    pub sequence_hash: SequenceHash,
}

/// The blocks to save. Pairs name the hash first; each block keeps the hash it is paired with.
pub fn build_external_blocks(pairs: &[(SequenceHash, BlockId)]) -> (r: Vec<ExternalBlock>)
    ensures
        r@.len() == pairs@.len(),
        forall|i: int|
            0 <= i < r@.len() ==> #[trigger] r@[i] == (ExternalBlock {
                block_id: pairs@[i].1,
                sequence_hash: pairs@[i].0,
            }),
{
    let mut blocks: Vec<ExternalBlock> = Vec::new();
    let mut at: usize = 0;
    while at < pairs.len()
        invariant
            at <= pairs@.len(),
            blocks@.len() == at,
            forall|i: int|
                0 <= i < at ==> #[trigger] blocks@[i] == (ExternalBlock {
                    block_id: pairs@[i].1,
                    sequence_hash: pairs@[i].0,
                }),
        decreases pairs@.len() - at,
    {
        let (sequence_hash, block_id) = pairs[at];
        blocks.push(ExternalBlock { block_id, sequence_hash });
        at = at + 1;
    }
    blocks
}

} // verus!
