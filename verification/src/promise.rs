//! Promise artifacts and their registry: the memoization boundary between
//! artifact groups and anonymous-target analysis.
//!
//! A promise names a build output whose identity is known before the
//! anonymous target producing it has been analyzed. Each promise owns a
//! single-assignment memoization cell: unresolved, in flight, resolved to a
//! handle, or failed. The registry owns the cells; callers hold only
//! lightweight references. Running an analysis is outside work, so the
//! registry exposes the resolution protocol as decisions: an attempt either
//! returns the cached outcome, asks the caller to run one analysis, or
//! reports that another caller is already running it; the caller reports
//! the analysis back through [`PromiseArtifactRegistry::settle`].

use vstd::prelude::*;

use crate::artifact::Artifact;

verus! {

/// Identity of an anonymous (dynamically configured) target.
#[derive(Clone, Copy, Debug, PartialEq, Eq, Hash, Structural)]
pub struct AnonTargetKey {
    pub id: u64,
}

/// Declared identity of a promised artifact: the owning anonymous target
/// together with the declared output slot within that target's analysis.
#[derive(Clone, Copy, Debug, PartialEq, Eq, Hash, Structural)]
pub struct PromiseArtifactId {
    pub owner: AnonTargetKey,
    pub id: usize,
}

/// Why a promise failed; cached permanently once it happens.
#[derive(Clone, Copy, Debug, PartialEq, Eq, Structural)]
pub enum PromiseError {
    /// The owning target's analysis itself failed; `code` carries the
    /// analysis error verbatim.
    AnalysisFailed { target: AnonTargetKey, code: u64 },
    /// The owning target's analysis succeeded but did not declare the
    /// expected output: a contract violation between the producer and the
    /// promise, surfaced distinctly from an analysis failure.
    MissingExpectedOutput { id: PromiseArtifactId },
}

/// The memoization cell of one promise. `Resolved` and `Failed` are
/// terminal: once reached, the cell never changes again.
#[derive(Clone, Copy, Debug, PartialEq, Eq, Structural)]
pub enum PromiseState {
    /// No resolution attempt yet.
    Unresolved,
    /// Analysis was triggered and is in flight.
    Resolving,
    /// Analysis completed and the promised handle is cached.
    Resolved(Artifact),
    /// Analysis completed with a permanent failure.
    Failed(PromiseError),
}

/// A cell reaches a terminal state exactly when it holds an outcome.
pub open spec fn is_terminal(st: PromiseState) -> bool {
    st is Resolved || st is Failed
}

/// Reference to a registered promise artifact: its declared identity and
/// the index of its memoization cell within the registry.
#[derive(Clone, Copy, Debug, PartialEq, Eq, Hash, Structural)]
pub struct PromiseArtifact {
    pub id: PromiseArtifactId,
    pub cell: usize,
}

/// One memoization cell as the registry stores it.
#[derive(Clone, Copy, Debug, PartialEq, Eq, Structural)]
pub struct PromiseCell {
    pub id: PromiseArtifactId,
    pub state: PromiseState,
}

/// What a completed anonymous-target analysis declares: each promised
/// output slot together with the handle it resolved to.
pub struct AnalysisResult {
    pub artifacts: Vec<(PromiseArtifactId, Artifact)>,
}

/// The handle that an analysis declares for identity `id`: the first
/// declared slot with that identity, if any.
pub open spec fn declared_artifact(
    declared: Seq<(PromiseArtifactId, Artifact)>,
    id: PromiseArtifactId,
) -> Option<Artifact>
    decreases declared.len(),
{
    if declared.len() == 0 {
        None
    } else if declared[0].0 == id {
        Some(declared[0].1)
    } else {
        declared_artifact(declared.skip(1), id)
    }
}

/// The reference `p` names a live cell of the registry and agrees with it
/// on the declared identity.
pub open spec fn valid_promise(cells: Seq<PromiseCell>, p: PromiseArtifact) -> bool {
    (p.cell as int) < cells.len() && cells[p.cell as int].id == p.id
}

/// What one resolution attempt decided.
#[derive(Clone, Copy, Debug, PartialEq, Eq, Structural)]
pub enum ResolveAttempt {
    /// The cell already held a handle.
    Resolved(Artifact),
    /// The cell already held a permanent failure.
    Failed(PromiseError),
    /// The caller must run the named target's analysis and report it back
    /// through `settle`; the cell is now marked in flight.
    NeedAnalysis(AnonTargetKey),
    /// Another caller already triggered the analysis; wait for it to
    /// settle.
    Pending,
}

/// One resolution attempt as a pure transition of the cell state: terminal
/// and in-flight cells are left alone, only an untouched cell asks for an
/// analysis to be triggered.
pub open spec fn begin_step(st: PromiseState, id: PromiseArtifactId) -> (PromiseState, ResolveAttempt) {
    match st {
        PromiseState::Resolved(a) => (st, ResolveAttempt::Resolved(a)),
        PromiseState::Failed(e) => (st, ResolveAttempt::Failed(e)),
        PromiseState::Resolving => (st, ResolveAttempt::Pending),
        PromiseState::Unresolved => (PromiseState::Resolving, ResolveAttempt::NeedAnalysis(id.owner)),
    }
}

/// Settling as a pure transition: the first writer wins, later reports
/// observe the cached outcome. A failed analysis is cached as
/// `AnalysisFailed`; a successful analysis that does not declare the
/// expected identity is cached as `MissingExpectedOutput`.
pub open spec fn settle_step(
    st: PromiseState,
    id: PromiseArtifactId,
    outcome: Result<AnalysisResult, u64>,
) -> (PromiseState, Result<Artifact, PromiseError>) {
    match st {
        PromiseState::Resolved(a) => (st, Ok(a)),
        PromiseState::Failed(e) => (st, Err(e)),
        _ => match outcome {
            Err(code) => {
                let e = PromiseError::AnalysisFailed { target: id.owner, code };
                (PromiseState::Failed(e), Err(e))
            },
            Ok(res) => match declared_artifact(res.artifacts@, id) {
                Some(a) => (PromiseState::Resolved(a), Ok(a)),
                None => {
                    let e = PromiseError::MissingExpectedOutput { id };
                    (PromiseState::Failed(e), Err(e))
                },
            },
        },
    }
}

/// Abandoning a resolution attempt (the caller was cancelled) as a pure
/// transition: an in-flight cell becomes eligible for retry; everything
/// else is left alone, so a cached outcome is never lost.
pub open spec fn abandon_step(st: PromiseState) -> PromiseState {
    match st {
        PromiseState::Resolving => PromiseState::Unresolved,
        _ => st,
    }
}

/// Two resolution attempts in sequence trigger analysis at most once: if
/// the first attempt asked for an analysis, the next attempt on the
/// resulting cell never does, whatever order concurrent callers are
/// linearized in.
pub proof fn lemma_single_flight(st: PromiseState, id: PromiseArtifactId)
    ensures
        !((begin_step(st, id).1 is NeedAnalysis) && (begin_step(begin_step(st, id).0, id).1
            is NeedAnalysis)),
{
}

/// Promises are single-assignment: settling leaves the cell terminal, and
/// settling a terminal cell returns the cached outcome and changes
/// nothing, whatever the second report says.
pub proof fn lemma_settle_terminal(
    st: PromiseState,
    id: PromiseArtifactId,
    first: Result<AnalysisResult, u64>,
    second: Result<AnalysisResult, u64>,
)
    ensures
        is_terminal(settle_step(st, id, first).0),
        settle_step(settle_step(st, id, first).0, id, second) == settle_step(st, id, first),
{
}

/// Every attempt after a settle observes the settled outcome: the cell is
/// unchanged and the attempt reports exactly what was cached, so all
/// callers converge on one outcome.
pub proof fn lemma_attempt_after_settle(
    st: PromiseState,
    id: PromiseArtifactId,
    outcome: Result<AnalysisResult, u64>,
)
    ensures
        begin_step(settle_step(st, id, outcome).0, id).0 == settle_step(st, id, outcome).0,
        settle_step(st, id, outcome).1 matches Ok(a) ==> begin_step(
            settle_step(st, id, outcome).0,
            id,
        ).1 == ResolveAttempt::Resolved(a),
        settle_step(st, id, outcome).1 matches Err(e) ==> begin_step(
            settle_step(st, id, outcome).0,
            id,
        ).1 == ResolveAttempt::Failed(e),
{
}

/// Looks up the first declared slot with identity `id`, starting at `from`.
fn lookup_declared_from(
    declared: &Vec<(PromiseArtifactId, Artifact)>,
    from: usize,
    id: PromiseArtifactId,
) -> (r: Option<Artifact>)
    requires
        from <= declared@.len(),
    ensures
        r == declared_artifact(declared@.skip(from as int), id),
    decreases declared@.len() - from,
{
    if from == declared.len() {
        proof {
            assert(declared@.skip(from as int) =~= Seq::<(PromiseArtifactId, Artifact)>::empty());
        }
        None
    } else {
        let (slot, a) = declared[from];
        assert(declared@.skip(from as int)[0] == declared@[from as int]);
        if slot == id {
            Some(a)
        } else {
            proof {
                assert(declared@.skip(from as int).skip(1) =~= declared@.skip(from as int + 1));
            }
            lookup_declared_from(declared, from + 1, id)
        }
    }
}

/// The registry exclusively owning every promise's memoization cell.
pub struct PromiseArtifactRegistry {
    cells: Vec<PromiseCell>,
}

impl View for PromiseArtifactRegistry {
    type V = Seq<PromiseCell>;

    closed spec fn view(&self) -> Seq<PromiseCell> {
        self.cells@
    }
}

impl PromiseArtifactRegistry {
    /// An empty registry.
    pub fn new() -> (r: PromiseArtifactRegistry)
        ensures
            r@.len() == 0,
    {
        PromiseArtifactRegistry { cells: Vec::new() }
    }

    /// How many promises are registered.
    pub fn len(&self) -> (r: usize)
        ensures
            r == self@.len(),
    {
        self.cells.len()
    }

    /// Registers a new promise for `id` with a fresh, unresolved cell, and
    /// returns the reference callers hold on to.
    pub fn register(&mut self, id: PromiseArtifactId) -> (p: PromiseArtifact)
        ensures
            final(self)@ == old(self)@.push(
                (PromiseCell { id, state: PromiseState::Unresolved }),
            ),
            p.id == id,
            p.cell == old(self)@.len(),
            valid_promise(final(self)@, p),
    {
        let cell = self.cells.len();
        self.cells.push(PromiseCell { id, state: PromiseState::Unresolved });
        PromiseArtifact { id, cell }
    }

    /// Whether `p` references a live cell of this registry and agrees
    /// with it on the declared identity; what every other operation on
    /// `p` presumes.
    pub fn is_valid(&self, p: PromiseArtifact) -> (r: bool)
        ensures
            r == valid_promise(self@, p),
    {
        if p.cell < self.cells.len() {
            self.cells[p.cell].id == p.id
        } else {
            false
        }
    }

    /// Non-suspending peek: the cached handle if the promise resolved,
    /// nothing otherwise (also nothing for a cached failure; see
    /// [`Self::state`] for the full cell).
    pub fn get(&self, p: PromiseArtifact) -> (r: Option<Artifact>)
        requires
            valid_promise(self@, p),
        ensures
            r == (match self@[p.cell as int].state {
                PromiseState::Resolved(a) => Some(a),
                _ => None::<Artifact>,
            }),
    {
        match self.cells[p.cell].state {
            PromiseState::Resolved(a) => Some(a),
            _ => None,
        }
    }

    /// Non-suspending peek at the full cell state, cached outcomes
    /// included.
    pub fn state(&self, p: PromiseArtifact) -> (r: PromiseState)
        requires
            valid_promise(self@, p),
        ensures
            r == self@[p.cell as int].state,
    {
        self.cells[p.cell].state
    }

    /// One resolution attempt on `p`'s cell, as decided by [`begin_step`]:
    /// a cached outcome is returned as is; an untouched cell is marked in
    /// flight and the caller is asked to run the owning target's analysis;
    /// a cell already in flight reports `Pending`. Only one of any number
    /// of attempts is ever asked to run the analysis.
    pub fn begin_resolve(&mut self, p: PromiseArtifact) -> (r: ResolveAttempt)
        requires
            valid_promise(old(self)@, p),
        ensures
            r == begin_step(old(self)@[p.cell as int].state, p.id).1,
            final(self)@ == old(self)@.update(
                p.cell as int,
                (PromiseCell { id: p.id, state: begin_step(old(self)@[p.cell as int].state, p.id).0 }),
            ),
            valid_promise(final(self)@, p),
    {
        let st = self.cells[p.cell].state;
        match st {
            PromiseState::Resolved(a) => {
                proof {
                    assert(self.cells@.update(
                        p.cell as int,
                        (PromiseCell { id: p.id, state: st }),
                    ) =~= self.cells@);
                }
                ResolveAttempt::Resolved(a)
            },
            PromiseState::Failed(e) => {
                proof {
                    assert(self.cells@.update(
                        p.cell as int,
                        (PromiseCell { id: p.id, state: st }),
                    ) =~= self.cells@);
                }
                ResolveAttempt::Failed(e)
            },
            PromiseState::Resolving => {
                proof {
                    assert(self.cells@.update(
                        p.cell as int,
                        (PromiseCell { id: p.id, state: st }),
                    ) =~= self.cells@);
                }
                ResolveAttempt::Pending
            },
            PromiseState::Unresolved => {
                self.cells[p.cell] = PromiseCell { id: p.id, state: PromiseState::Resolving };
                ResolveAttempt::NeedAnalysis(p.id.owner)
            },
        }
    }

    /// Reports the outcome of the analysis the caller was asked to run, as
    /// decided by [`settle_step`]: the first report settles the cell for
    /// good, every later report observes the cached outcome unchanged.
    pub fn settle(&mut self, p: PromiseArtifact, outcome: Result<AnalysisResult, u64>) -> (r:
        Result<Artifact, PromiseError>)
        requires
            valid_promise(old(self)@, p),
        ensures
            r == settle_step(old(self)@[p.cell as int].state, p.id, outcome).1,
            final(self)@ == old(self)@.update(
                p.cell as int,
                (PromiseCell {
                    id: p.id,
                    state: settle_step(old(self)@[p.cell as int].state, p.id, outcome).0,
                }),
            ),
            is_terminal(final(self)@[p.cell as int].state),
            valid_promise(final(self)@, p),
    {
        let st = self.cells[p.cell].state;
        match st {
            PromiseState::Resolved(a) => {
                proof {
                    assert(self.cells@.update(
                        p.cell as int,
                        (PromiseCell { id: p.id, state: st }),
                    ) =~= self.cells@);
                }
                Ok(a)
            },
            PromiseState::Failed(e) => {
                proof {
                    assert(self.cells@.update(
                        p.cell as int,
                        (PromiseCell { id: p.id, state: st }),
                    ) =~= self.cells@);
                }
                Err(e)
            },
            _ => match outcome {
                Err(code) => {
                    let e = PromiseError::AnalysisFailed { target: p.id.owner, code };
                    self.cells[p.cell] = PromiseCell { id: p.id, state: PromiseState::Failed(e) };
                    Err(e)
                },
                Ok(res) => {
                    proof {
                        assert(res.artifacts@.skip(0) =~= res.artifacts@);
                    }
                    match lookup_declared_from(&res.artifacts, 0, p.id) {
                        Some(a) => {
                            self.cells[p.cell] = PromiseCell {
                                id: p.id,
                                state: PromiseState::Resolved(a),
                            };
                            Ok(a)
                        },
                        None => {
                            let e = PromiseError::MissingExpectedOutput { id: p.id };
                            self.cells[p.cell] = PromiseCell {
                                id: p.id,
                                state: PromiseState::Failed(e),
                            };
                            Err(e)
                        },
                    }
                },
            },
        }
    }

    /// Abandons a resolution attempt that was cancelled before settling:
    /// an in-flight cell becomes unresolved again (eligible for retry by a
    /// future caller), a settled cell keeps its outcome.
    pub fn abandon(&mut self, p: PromiseArtifact)
        requires
            valid_promise(old(self)@, p),
        ensures
            final(self)@ == old(self)@.update(
                p.cell as int,
                (PromiseCell { id: p.id, state: abandon_step(old(self)@[p.cell as int].state) }),
            ),
            valid_promise(final(self)@, p),
    {
        let st = self.cells[p.cell].state;
        match st {
            PromiseState::Resolving => {
                self.cells[p.cell] = PromiseCell { id: p.id, state: PromiseState::Unresolved };
            },
            _ => {
                proof {
                    assert(self.cells@.update(
                        p.cell as int,
                        (PromiseCell { id: p.id, state: st }),
                    ) =~= self.cells@);
                }
            },
        }
    }
}

} // verus!
