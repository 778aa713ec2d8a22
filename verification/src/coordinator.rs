//! The order of early initialisation.
//!
//! Early initialisation is a fixed line of steps, taken once each on the
//! bootstrap processor. The coordinator says which step is due and takes note
//! of how it ended; the caller performs the step. A step that fails halts the
//! boot for good.

use vstd::prelude::*;

verus! {

/// How far early initialisation has come.
#[derive(Clone, Copy, Debug, PartialEq, Eq, Structural)]
pub enum InitStage {
    /// Nothing has been done yet.
    Start,
    /// The architecture's own early initialisation is done.
    ArchEarlyInit,
    /// The CPU features that the kernel needs are switched on.
    CpuFeaturesEnabled,
    /// The serial console works.
    SerialReady,
    /// The bootstrap processor has its per-CPU base.
    PerCpuBaseReady,
    /// The heap works.
    HeapReady,
    /// Every boot fact has its callback.
    FactsRegistered,
    /// The boot facts are filled: the getters may be called.
    FactsPopulated,
}

/// A step of early initialisation.
#[derive(Clone, Copy, Debug, PartialEq, Eq, Structural)]
pub enum InitStep {
    /// Run the architecture's own early initialisation.
    ArchEarlyInit,
    /// Switch on the CPU features that the kernel needs.
    EnableCpuFeatures,
    /// Bring up the serial console.
    InitSerial,
    /// Set the per-CPU base of the bootstrap processor.
    SetPerCpuBase,
    /// Bring up the heap.
    InitHeap,
    /// Check that every boot fact has its callback.
    RegisterFacts,
    /// Call the boot init callbacks.
    PopulateFacts,
}

/// Why the coordinator refused to take note of a step.
#[derive(Clone, Copy, Debug, PartialEq, Eq, Structural)]
pub enum InitError {
    /// Only the bootstrap processor initialises.
    NotBootstrapProcessor,
    /// An earlier step failed: the boot is halted.
    Halted,
    /// The step is not the one that is due.
    OutOfOrder,
    /// The step failed: the boot is halted from now on.
    StepFailed,
}

impl InitStage {
    /// The number of steps that lead to the stage.
    pub open spec fn ordinal(self) -> int {
        match self {
            InitStage::Start => 0,
            InitStage::ArchEarlyInit => 1,
            InitStage::CpuFeaturesEnabled => 2,
            InitStage::SerialReady => 3,
            InitStage::PerCpuBaseReady => 4,
            InitStage::HeapReady => 5,
            InitStage::FactsRegistered => 6,
            InitStage::FactsPopulated => 7,
        }
    }

    /// The step that is due at the stage; none at the last one.
    pub open spec fn due(self) -> Option<InitStep> {
        match self {
            InitStage::Start => Some(InitStep::ArchEarlyInit),
            InitStage::ArchEarlyInit => Some(InitStep::EnableCpuFeatures),
            InitStage::CpuFeaturesEnabled => Some(InitStep::InitSerial),
            InitStage::SerialReady => Some(InitStep::SetPerCpuBase),
            InitStage::PerCpuBaseReady => Some(InitStep::InitHeap),
            InitStage::HeapReady => Some(InitStep::RegisterFacts),
            InitStage::FactsRegistered => Some(InitStep::PopulateFacts),
            InitStage::FactsPopulated => None,
        }
    }

    /// The stage that the step which is due leads to; the last stage stays.
    pub open spec fn successor(self) -> InitStage {
        match self {
            InitStage::Start => InitStage::ArchEarlyInit,
            InitStage::ArchEarlyInit => InitStage::CpuFeaturesEnabled,
            InitStage::CpuFeaturesEnabled => InitStage::SerialReady,
            InitStage::SerialReady => InitStage::PerCpuBaseReady,
            InitStage::PerCpuBaseReady => InitStage::HeapReady,
            InitStage::HeapReady => InitStage::FactsRegistered,
            InitStage::FactsRegistered => InitStage::FactsPopulated,
            InitStage::FactsPopulated => InitStage::FactsPopulated,
        }
    }

    /// The step that is due at the stage.
    pub fn next_step(self) -> (step: Option<InitStep>)
        ensures
            step == self.due(),
    {
        match self {
            InitStage::Start => Some(InitStep::ArchEarlyInit),
            InitStage::ArchEarlyInit => Some(InitStep::EnableCpuFeatures),
            InitStage::CpuFeaturesEnabled => Some(InitStep::InitSerial),
            InitStage::SerialReady => Some(InitStep::SetPerCpuBase),
            InitStage::PerCpuBaseReady => Some(InitStep::InitHeap),
            InitStage::HeapReady => Some(InitStep::RegisterFacts),
            InitStage::FactsRegistered => Some(InitStep::PopulateFacts),
            InitStage::FactsPopulated => None,
        }
    }

    /// The stage after this one.
    pub fn next_stage(self) -> (stage: InitStage)
        ensures
            stage == self.successor(),
    {
        match self {
            InitStage::Start => InitStage::ArchEarlyInit,
            InitStage::ArchEarlyInit => InitStage::CpuFeaturesEnabled,
            InitStage::CpuFeaturesEnabled => InitStage::SerialReady,
            InitStage::SerialReady => InitStage::PerCpuBaseReady,
            InitStage::PerCpuBaseReady => InitStage::HeapReady,
            InitStage::HeapReady => InitStage::FactsRegistered,
            InitStage::FactsRegistered => InitStage::FactsPopulated,
            InitStage::FactsPopulated => InitStage::FactsPopulated,
        }
    }
}

/// The state of early initialisation: the stage reached, whether the boot is
/// halted, and which processor initialises.
#[derive(Clone, Copy, Debug, PartialEq, Eq, Structural)]
pub struct InitState {
    /// The stage reached.
    pub stage: InitStage,
    /// Whether a step has failed.
    pub halted: bool,
    /// The bootstrap processor.
    pub bsp: usize,
}

/// How an attempt to take note of a step ends.
pub open spec fn verdict(state: InitState, hart: usize, step: InitStep, ok: bool) -> Result<
    InitStage,
    InitError,
> {
    if hart != state.bsp {
        Err(InitError::NotBootstrapProcessor)
    } else if state.halted {
        Err(InitError::Halted)
    } else if state.stage.due() != Some(step) {
        Err(InitError::OutOfOrder)
    } else if !ok {
        Err(InitError::StepFailed)
    } else {
        Ok(state.stage.successor())
    }
}

/// The state after an attempt to take note of a step: a step that is due and
/// went well leads to the next stage, one that is due and failed halts the
/// boot, and any other attempt changes nothing.
pub open spec fn noted(state: InitState, hart: usize, step: InitStep, ok: bool) -> InitState {
    match verdict(state, hart, step, ok) {
        Ok(stage) => InitState { stage, ..state },
        Err(InitError::StepFailed) => InitState { halted: true, ..state },
        Err(_) => state,
    }
}

/// The coordinator of early initialisation.
pub struct InitCoordinator {
    state: InitState,
}

impl View for InitCoordinator {
    type V = InitState;

    closed spec fn view(&self) -> InitState {
        self.state
    }
}

impl InitCoordinator {
    /// A coordinator at the start, for the bootstrap processor `bsp`.
    pub fn new(bsp: usize) -> (c: Self)
        ensures
            c@ == (InitState { stage: InitStage::Start, halted: false, bsp }),
    {
        InitCoordinator { state: InitState { stage: InitStage::Start, halted: false, bsp } }
    }

    /// The stage reached.
    pub fn stage(&self) -> (stage: InitStage)
        ensures
            stage == self@.stage,
    {
        self.state.stage
    }

    /// Whether a step has failed, so that the boot is halted.
    pub fn is_halted(&self) -> (halted: bool)
        ensures
            halted == self@.halted,
    {
        self.state.halted
    }

    /// Whether the boot facts are filled, so that their getters may be called.
    pub fn is_ready(&self) -> (ready: bool)
        ensures
            ready == (self@.stage == InitStage::FactsPopulated && !self@.halted),
    {
        self.state.stage == InitStage::FactsPopulated && !self.state.halted
    }

    /// The step that the processor `hart` has to perform next: none on
    /// another processor than the bootstrap processor, none once the boot is
    /// halted, and none when the last stage is reached.
    pub fn next_step(&self, hart: usize) -> (step: Option<InitStep>)
        ensures
            step == if hart != self@.bsp || self@.halted {
                None
            } else {
                self@.stage.due()
            },
    {
        if hart != self.state.bsp || self.state.halted {
            None
        } else {
            self.state.stage.next_step()
        }
    }

    /// Takes note that the processor `hart` performed `step`, and of whether
    /// it went well.
    ///
    /// Only the step that is due counts, and only on the bootstrap processor.
    /// One that went well leads to the next stage, which is returned. One
    /// that failed halts the boot: no step is accepted after it.
    pub fn complete(&mut self, hart: usize, step: InitStep, ok: bool) -> (r: Result<
        InitStage,
        InitError,
    >)
        ensures
            r == verdict(old(self)@, hart, step, ok),
            final(self)@ == noted(old(self)@, hart, step, ok),
    {
        if hart != self.state.bsp {
            return Err(InitError::NotBootstrapProcessor);
        }
        if self.state.halted {
            return Err(InitError::Halted);
        }
        let in_order = match self.state.stage.next_step() {
            Some(due) => due == step,
            None => false,
        };
        if !in_order {
            return Err(InitError::OutOfOrder);
        }
        if !ok {
            self.state.halted = true;
            return Err(InitError::StepFailed);
        }
        let stage = self.state.stage.next_stage();
        self.state.stage = stage;
        Ok(stage)
    }
}

/// The state after a run of attempts, each a processor, a step and how the
/// step ended.
pub open spec fn run(state: InitState, attempts: Seq<(usize, InitStep, bool)>) -> InitState
    decreases attempts.len(),
{
    if attempts.len() == 0 {
        state
    } else {
        let last = attempts.last();
        noted(run(state, attempts.drop_last()), last.0, last.1, last.2)
    }
}

/// No attempt leads back: the stage never falls, it rises by one step at
/// most, and a halted boot stays halted at its stage.
pub proof fn lemma_no_way_back(state: InitState, hart: usize, step: InitStep, ok: bool)
    ensures
        noted(state, hart, step, ok).bsp == state.bsp,
        state.stage.ordinal() <= noted(state, hart, step, ok).stage.ordinal()
            <= state.stage.ordinal() + 1,
        state.halted ==> noted(state, hart, step, ok) == state,
        noted(state, hart, step, ok).stage != state.stage ==> hart == state.bsp && ok
            && state.stage.due() == Some(step),
{
}

/// Whatever is attempted, the stage that a run reaches is no further from the
/// start than the run is long, and no earlier than where the run began.
pub proof fn lemma_run_is_monotonic(state: InitState, attempts: Seq<(usize, InitStep, bool)>)
    ensures
        state.stage.ordinal() <= run(state, attempts).stage.ordinal() <= state.stage.ordinal()
            + attempts.len(),
        state.halted ==> run(state, attempts) == state,
    decreases attempts.len(),
{
    if attempts.len() > 0 {
        lemma_run_is_monotonic(state, attempts.drop_last());
        let last = attempts.last();
        lemma_no_way_back(run(state, attempts.drop_last()), last.0, last.1, last.2);
    }
}

/// A stage is reached only through the stages before it: a run that ends at
/// a stage was at every earlier stage, not halted, after some of its
/// attempts. So the heap is up before the boot facts are registered, and the
/// facts are registered before they are filled.
pub proof fn lemma_stages_in_order(
    state: InitState,
    attempts: Seq<(usize, InitStep, bool)>,
    earlier: InitStage,
)
    requires
        state.stage.ordinal() <= earlier.ordinal() <= run(state, attempts).stage.ordinal(),
        !state.halted,
    ensures
        exists|k: int|
            0 <= k <= attempts.len() && (#[trigger] run(state, attempts.take(k))).stage == earlier
                && !run(state, attempts.take(k)).halted,
    decreases attempts.len(),
{
    if attempts.len() == 0 {
        assert(attempts.take(0) =~= attempts);
        assert(run(state, attempts.take(0)).stage == earlier);
    } else {
        let before = attempts.drop_last();
        let last = attempts.last();
        let at = run(state, before);
        lemma_no_way_back(at, last.0, last.1, last.2);
        if earlier.ordinal() <= at.stage.ordinal() {
            lemma_stages_in_order(state, before, earlier);
            let k = choose|k: int|
                0 <= k <= before.len() && (#[trigger] run(state, before.take(k))).stage == earlier
                    && !run(state, before.take(k)).halted;
            assert(attempts.take(k) =~= before.take(k));
        } else {
            assert(attempts.take(attempts.len() as int) =~= attempts);
            assert(run(state, attempts).stage == earlier);
            assert(!at.halted);
        }
    }
}

} // verus!
