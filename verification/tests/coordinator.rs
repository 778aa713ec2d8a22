use aster_early_init::coordinator::{InitCoordinator, InitError, InitStage, InitStep};

const STEPS: [InitStep; 7] = [
    InitStep::ArchEarlyInit,
    InitStep::EnableCpuFeatures,
    InitStep::InitSerial,
    InitStep::SetPerCpuBase,
    InitStep::InitHeap,
    InitStep::RegisterFacts,
    InitStep::PopulateFacts,
];

const STAGES: [InitStage; 8] = [
    InitStage::Start,
    InitStage::ArchEarlyInit,
    InitStage::CpuFeaturesEnabled,
    InitStage::SerialReady,
    InitStage::PerCpuBaseReady,
    InitStage::HeapReady,
    InitStage::FactsRegistered,
    InitStage::FactsPopulated,
];

#[test]
fn full_init_takes_the_steps_in_order() {
    let mut c = InitCoordinator::new(0);
    assert_eq!(c.stage(), InitStage::Start);
    for k in 0..7 {
        assert!(!c.is_ready());
        assert_eq!(c.stage(), STAGES[k]);
        assert_eq!(c.next_step(0), Some(STEPS[k]));
        assert_eq!(c.complete(0, STEPS[k], true), Ok(STAGES[k + 1]));
    }
    assert_eq!(c.stage(), InitStage::FactsPopulated);
    assert!(c.is_ready());
    assert!(!c.is_halted());
    assert_eq!(c.next_step(0), None);
}

#[test]
fn stages_name_their_steps() {
    for k in 0..7 {
        assert_eq!(STAGES[k].next_step(), Some(STEPS[k]));
        assert_eq!(STAGES[k].next_stage(), STAGES[k + 1]);
    }
    assert_eq!(InitStage::FactsPopulated.next_step(), None);
    assert_eq!(InitStage::FactsPopulated.next_stage(), InitStage::FactsPopulated);
}

#[test]
fn a_step_counts_only_once() {
    let mut c = InitCoordinator::new(0);
    assert_eq!(c.complete(0, InitStep::ArchEarlyInit, true), Ok(InitStage::ArchEarlyInit));
    assert_eq!(c.complete(0, InitStep::ArchEarlyInit, true), Err(InitError::OutOfOrder));
    assert_eq!(c.stage(), InitStage::ArchEarlyInit);
    assert!(!c.is_halted());
}

#[test]
fn facts_cannot_come_before_the_heap() {
    let mut c = InitCoordinator::new(0);
    for k in 0..4 {
        assert_eq!(c.complete(0, STEPS[k], true), Ok(STAGES[k + 1]));
    }
    assert_eq!(c.complete(0, InitStep::RegisterFacts, true), Err(InitError::OutOfOrder));
    assert_eq!(c.complete(0, InitStep::PopulateFacts, true), Err(InitError::OutOfOrder));
    assert_eq!(c.stage(), InitStage::PerCpuBaseReady);
    assert_eq!(c.complete(0, InitStep::InitHeap, true), Ok(InitStage::HeapReady));
    assert_eq!(c.complete(0, InitStep::RegisterFacts, true), Ok(InitStage::FactsRegistered));
}

#[test]
fn a_failed_step_halts_the_boot() {
    let mut c = InitCoordinator::new(0);
    assert_eq!(c.complete(0, InitStep::ArchEarlyInit, true), Ok(InitStage::ArchEarlyInit));
    assert_eq!(c.complete(0, InitStep::EnableCpuFeatures, false), Err(InitError::StepFailed));
    assert!(c.is_halted());
    assert!(!c.is_ready());
    assert_eq!(c.stage(), InitStage::ArchEarlyInit);
    assert_eq!(c.next_step(0), None);
    assert_eq!(c.complete(0, InitStep::EnableCpuFeatures, true), Err(InitError::Halted));
    assert_eq!(c.stage(), InitStage::ArchEarlyInit);
}

#[test]
fn only_the_bootstrap_processor_initialises() {
    let mut c = InitCoordinator::new(3);
    assert_eq!(c.next_step(0), None);
    assert_eq!(c.next_step(3), Some(InitStep::ArchEarlyInit));
    assert_eq!(
        c.complete(0, InitStep::ArchEarlyInit, true),
        Err(InitError::NotBootstrapProcessor)
    );
    assert_eq!(
        c.complete(1, InitStep::ArchEarlyInit, false),
        Err(InitError::NotBootstrapProcessor)
    );
    assert_eq!(c.stage(), InitStage::Start);
    assert!(!c.is_halted());
    assert_eq!(c.complete(3, InitStep::ArchEarlyInit, true), Ok(InitStage::ArchEarlyInit));
}

#[test]
fn nothing_follows_the_last_stage() {
    let mut c = InitCoordinator::new(0);
    for k in 0..7 {
        assert_eq!(c.complete(0, STEPS[k], true), Ok(STAGES[k + 1]));
    }
    for step in STEPS {
        assert_eq!(c.complete(0, step, true), Err(InitError::OutOfOrder));
    }
    assert!(c.is_ready());
}
