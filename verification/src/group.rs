//! Artifact group descriptors and the resolution protocol.
//!
//! An [`ArtifactGroup`] is the tagged descriptor a build step's dependency
//! list holds: a concrete artifact handle, a reference to a transitive-set
//! projection, or a reference to a promise artifact. Resolution normalizes
//! a descriptor into a [`ResolvedArtifactGroup`]: direct artifacts and
//! projection references pass through unchanged and never suspend (a
//! projection is expanded only when a downstream consumer demands its
//! value); a promise resolves down to a concrete handle or a cached error,
//! triggering its target's analysis at most once among all callers.

use vstd::prelude::*;

use crate::artifact::Artifact;
use crate::promise::begin_step;
use crate::promise::valid_promise;
use crate::promise::AnonTargetKey;
use crate::promise::PromiseArtifact;
use crate::promise::PromiseArtifactId;
use crate::promise::PromiseArtifactRegistry;
use crate::promise::PromiseCell;
use crate::promise::PromiseError;
use crate::promise::PromiseState;
use crate::promise::ResolveAttempt;
use crate::transitive_set::projection_spec;
use crate::transitive_set::valid_projection;
use crate::transitive_set::TransitiveSetProjectionKey;
use crate::transitive_set::TransitiveSetStore;

verus! {

/// An indirect reference to the build output(s) a build step consumes.
/// Cloning copies the tag and a lightweight handle or key, never deep
/// content; equality and hashing are structural, so descriptors can key a
/// deduplicating dependency map.
#[derive(Clone, Copy, Debug, PartialEq, Eq, Hash, Structural)]
pub enum ArtifactGroup {
    Artifact(Artifact),
    TransitiveSetProjection(TransitiveSetProjectionKey),
    Promise(PromiseArtifact),
}

/// The normalized form resolution produces: a concrete handle, or a
/// projection reference ready for a later engine lookup of the concrete
/// flattened value. A promise never survives resolution in promise form.
#[derive(Clone, Copy, Debug, PartialEq, Eq, Structural)]
pub enum ResolvedArtifactGroup {
    Artifact(Artifact),
    TransitiveSetProjection(TransitiveSetProjectionKey),
}

/// Resolving the same descriptor twice — the order any two concurrent
/// callers linearize to — asks for its target's analysis at most once:
/// after the step that asks, the cell is in flight and every further step
/// waits or observes the outcome, so analysis is never triggered twice.
pub proof fn lemma_resolve_single_flight(g: ArtifactGroup, cells: Seq<PromiseCell>)
    requires
        g.wf(cells),
    ensures
        !((g.resolve_spec(cells).1 is NeedAnalysis) && (g.resolve_spec(g.resolve_spec(cells).0).1
            is NeedAnalysis)),
{
    match g {
        ArtifactGroup::Promise(p) => {
            let cells2 = g.resolve_spec(cells).0;
            assert(cells2[p.cell as int].state == begin_step(cells[p.cell as int].state, p.id).0);
        },
        _ => {},
    }
}

impl ResolvedArtifactGroup {
    /// The concrete build outputs this resolved group stands for, for a
    /// downstream consumer that needs the actual values: a direct artifact
    /// is the value itself; a projection reference is expanded here, and
    /// memoized by the store so that every consumer of the same projection
    /// shares one computation.
    pub fn ensure_values(&self, store: &mut TransitiveSetStore) -> (r: Vec<Artifact>)
        requires
            old(store).wf(),
            *self matches ResolvedArtifactGroup::TransitiveSetProjection(k) ==> valid_projection(
                old(store).nodes_seq(),
                k,
            ),
        ensures
            final(store).wf(),
            final(store).nodes_seq() == old(store).nodes_seq(),
            match *self {
                ResolvedArtifactGroup::Artifact(a) => r@ == seq![a] && *final(store) == *old(store),
                ResolvedArtifactGroup::TransitiveSetProjection(k) => r@ == projection_spec(
                    old(store).nodes_seq(),
                    k,
                ),
            },
    {
        match self {
            ResolvedArtifactGroup::Artifact(a) => {
                let mut values: Vec<Artifact> = Vec::new();
                values.push(*a);
                proof {
                    assert(values@ =~= seq![*a]);
                }
                values
            },
            ResolvedArtifactGroup::TransitiveSetProjection(k) => store.ensure_projection(*k),
        }
    }
}

/// Why synchronous resolution failed.
#[derive(Clone, Copy, Debug, PartialEq, Eq, Structural)]
pub enum ResolutionError {
    /// The non-suspending peek ran before the promise settled:
    /// recoverable by switching to the suspending path.
    NotYetResolved { id: PromiseArtifactId },
    /// The promise settled with a permanent failure, returned to every
    /// caller.
    Promise(PromiseError),
}

/// One step of the suspending resolution path.
#[derive(Clone, Copy, Debug, PartialEq, Eq, Structural)]
pub enum ResolutionStep {
    /// Resolution finished with a normalized group.
    Done(ResolvedArtifactGroup),
    /// The promise had settled with a permanent failure.
    Failed(PromiseError),
    /// The caller must run the named target's analysis, settle the promise
    /// with its outcome, and retry.
    NeedAnalysis(AnonTargetKey),
    /// Another caller is already running the analysis; retry once it
    /// settles.
    Pending,
}

impl ArtifactGroup {
    /// A promise descriptor must reference a live registry cell; the other
    /// variants need nothing of the registry.
    pub open spec fn wf(self, cells: Seq<PromiseCell>) -> bool {
        match self {
            ArtifactGroup::Promise(p) => valid_promise(cells, p),
            _ => true,
        }
    }

    /// What synchronous resolution returns, as a pure function of the
    /// registry: direct artifacts and projection references pass through;
    /// a promise yields its cached outcome, or `NotYetResolved` if it has
    /// not settled.
    pub open spec fn resolved_spec(self, cells: Seq<PromiseCell>) -> Result<
        ResolvedArtifactGroup,
        ResolutionError,
    > {
        match self {
            ArtifactGroup::Artifact(a) => Ok(ResolvedArtifactGroup::Artifact(a)),
            ArtifactGroup::TransitiveSetProjection(k) => Ok(
                ResolvedArtifactGroup::TransitiveSetProjection(k),
            ),
            ArtifactGroup::Promise(p) => match cells[p.cell as int].state {
                PromiseState::Resolved(a) => Ok(ResolvedArtifactGroup::Artifact(a)),
                PromiseState::Failed(e) => Err(ResolutionError::Promise(e)),
                _ => Err(ResolutionError::NotYetResolved { id: p.id }),
            },
        }
    }

    /// Best-effort synchronous resolution: never suspends and never
    /// mutates anything. Once a promise has settled, this returns its
    /// cached outcome; before that it fails recoverably.
    pub fn resolved(&self, registry: &PromiseArtifactRegistry) -> (r: Result<
        ResolvedArtifactGroup,
        ResolutionError,
    >)
        requires
            self.wf(registry@),
        ensures
            r == self.resolved_spec(registry@),
    {
        match self {
            ArtifactGroup::Artifact(a) => Ok(ResolvedArtifactGroup::Artifact(*a)),
            ArtifactGroup::TransitiveSetProjection(k) => Ok(
                ResolvedArtifactGroup::TransitiveSetProjection(*k),
            ),
            ArtifactGroup::Promise(p) => match registry.state(*p) {
                PromiseState::Resolved(a) => Ok(ResolvedArtifactGroup::Artifact(a)),
                PromiseState::Failed(e) => Err(ResolutionError::Promise(e)),
                _ => Err(ResolutionError::NotYetResolved { id: p.id }),
            },
        }
    }

    /// Synchronous resolution for callers that guarantee, out of band,
    /// that resolution cannot fail here; the guarantee is the
    /// precondition, so the failing inputs are excluded outright.
    pub fn assert_resolved(&self, registry: &PromiseArtifactRegistry) -> (r: ResolvedArtifactGroup)
        requires
            self.wf(registry@),
            self.resolved_spec(registry@) is Ok,
        ensures
            Ok::<ResolvedArtifactGroup, ResolutionError>(r) == self.resolved_spec(registry@),
    {
        self.resolved(registry).unwrap()
    }

    /// One step of the always-correct resolution path, as a pure function
    /// of the registry: what the registry becomes, and what the caller
    /// learns or must do next.
    pub open spec fn resolve_spec(self, cells: Seq<PromiseCell>) -> (Seq<PromiseCell>, ResolutionStep) {
        match self {
            ArtifactGroup::Artifact(a) => (cells, ResolutionStep::Done(ResolvedArtifactGroup::Artifact(a))),
            ArtifactGroup::TransitiveSetProjection(k) => (
                cells,
                ResolutionStep::Done(ResolvedArtifactGroup::TransitiveSetProjection(k)),
            ),
            ArtifactGroup::Promise(p) => {
                let stepped = begin_step(cells[p.cell as int].state, p.id);
                (
                    cells.update(p.cell as int, (PromiseCell { id: p.id, state: stepped.0 })),
                    match stepped.1 {
                        ResolveAttempt::Resolved(a) => ResolutionStep::Done(
                            ResolvedArtifactGroup::Artifact(a),
                        ),
                        ResolveAttempt::Failed(e) => ResolutionStep::Failed(e),
                        ResolveAttempt::NeedAnalysis(t) => ResolutionStep::NeedAnalysis(t),
                        ResolveAttempt::Pending => ResolutionStep::Pending,
                    },
                )
            },
        }
    }

    /// One step of the always-correct resolution path. A direct artifact
    /// or projection reference finishes immediately and leaves the
    /// registry untouched: no suspension, no engine interaction. A promise
    /// takes one [`begin_step`] on its cell: cached outcomes finish, an
    /// untouched cell asks the caller to run the analysis (at most one
    /// caller is ever asked), an in-flight cell reports `Pending`.
    pub fn resolve(&self, registry: &mut PromiseArtifactRegistry) -> (r: ResolutionStep)
        requires
            self.wf(old(registry)@),
        ensures
            final(registry)@ == self.resolve_spec(old(registry)@).0,
            r == self.resolve_spec(old(registry)@).1,
            !(self is Promise) ==> *final(registry) == *old(registry) && r == ResolutionStep::Done(
                self.resolved_spec(old(registry)@).unwrap(),
            ),
    {
        match self {
            ArtifactGroup::Artifact(a) => ResolutionStep::Done(ResolvedArtifactGroup::Artifact(*a)),
            ArtifactGroup::TransitiveSetProjection(k) => ResolutionStep::Done(
                ResolvedArtifactGroup::TransitiveSetProjection(*k),
            ),
            ArtifactGroup::Promise(p) => match registry.begin_resolve(*p) {
                ResolveAttempt::Resolved(a) => ResolutionStep::Done(
                    ResolvedArtifactGroup::Artifact(a),
                ),
                ResolveAttempt::Failed(e) => ResolutionStep::Failed(e),
                ResolveAttempt::NeedAnalysis(t) => ResolutionStep::NeedAnalysis(t),
                ResolveAttempt::Pending => ResolutionStep::Pending,
            },
        }
    }
}

} // verus!
