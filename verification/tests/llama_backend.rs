use llama_cpp_2::llama_backend::{
    backend_search_start, backend_search_step, numa_code, BackendCall, BackendFlag, BackendSearchStep,
    BackendSource, InvalidNumaStrategy, LlamaBackend, NumaStrategy, GGML_NUMA_STRATEGY_COUNT,
    GGML_NUMA_STRATEGY_MIRROR,
};
use llama_cpp_2::LlamaCppError;

#[test]
fn numa_from_and_to() {
    let numas = [
        NumaStrategy::DISABLED,
        NumaStrategy::DISTRIBUTE,
        NumaStrategy::ISOLATE,
        NumaStrategy::NUMACTL,
        NumaStrategy::MIRROR,
        NumaStrategy::COUNT,
    ];

    for numa in &numas {
        let from = u32::from(*numa);
        let to = NumaStrategy::try_from(from).expect("Failed to convert from and to");
        assert_eq!(*numa, to);
    }
}

#[test]
fn check_invalid_numa() {
    let invalid = 800;
    let invalid = NumaStrategy::try_from(invalid);
    assert_eq!(invalid, Err(InvalidNumaStrategy(invalid.unwrap_err().0)));
}

#[test]
fn numa_codes_are_ggml_enum_values() {
    assert_eq!(u32::from(NumaStrategy::DISABLED), 0);
    assert_eq!(u32::from(NumaStrategy::DISTRIBUTE), 1);
    assert_eq!(u32::from(NumaStrategy::ISOLATE), 2);
    assert_eq!(u32::from(NumaStrategy::NUMACTL), 3);
    assert_eq!(numa_code(NumaStrategy::MIRROR), GGML_NUMA_STRATEGY_MIRROR);
    assert_eq!(numa_code(NumaStrategy::COUNT), GGML_NUMA_STRATEGY_COUNT);
    assert_eq!(NumaStrategy::try_from(4), Ok(NumaStrategy::MIRROR));
}

#[test]
fn numa_first_invalid_code() {
    assert_eq!(NumaStrategy::try_from(5), Ok(NumaStrategy::COUNT));
    assert_eq!(NumaStrategy::try_from(6), Err(InvalidNumaStrategy(6)));
    assert_eq!(NumaStrategy::try_from(u32::MAX), Err(InvalidNumaStrategy(u32::MAX)));
}

#[test]
fn backend_can_only_be_initialized_once() {
    let mut flag = BackendFlag::new();
    assert!(!flag.is_initialized());
    let (backend, calls) = LlamaBackend::init(&mut flag).expect("first initialisation");
    assert_eq!(calls, vec![BackendCall::BackendInit]);
    assert!(flag.is_initialized());
    // the llama backend can only be initialized once
    assert_eq!(
        Err(LlamaCppError::BackendAlreadyInitialized),
        LlamaBackend::init(&mut flag).map(|(b, _)| b)
    );
    assert!(flag.is_initialized());
    drop(backend);
}

#[test]
fn backend_can_be_initialized_again_after_drop() {
    let mut flag = BackendFlag::new();
    let (backend, _) = LlamaBackend::init(&mut flag).expect("first initialisation");
    backend.free(&mut flag);
    assert!(!flag.is_initialized());
    let backend = LlamaBackend::init(&mut flag);
    assert!(backend.is_ok());
}

#[test]
fn mark_init_reports_already_initialized() {
    let mut flag = BackendFlag::new();
    assert_eq!(LlamaBackend::mark_init(&mut flag), Ok(()));
    assert_eq!(
        LlamaBackend::mark_init(&mut flag),
        Err(LlamaCppError::BackendAlreadyInitialized)
    );
}

#[test]
fn init_numa_hands_over_the_strategy_code() {
    let mut flag = BackendFlag::new();
    let r = LlamaBackend::init_numa(&mut flag, NumaStrategy::MIRROR);
    let (_backend, calls) = r.expect("first initialisation");
    assert_eq!(
        calls,
        vec![BackendCall::BackendInit, BackendCall::NumaInit(4)]
    );
    let r = LlamaBackend::init_numa(&mut flag, NumaStrategy::DISTRIBUTE);
    assert_eq!(r, Err(LlamaCppError::BackendAlreadyInitialized));
    let r = LlamaBackend::init(&mut flag);
    assert_eq!(r, Err(LlamaCppError::BackendAlreadyInitialized));
}

#[test]
fn backend_search_takes_first_directory() {
    let start = backend_search_start();
    assert_eq!(start, BackendSource::EnvVar);
    assert_eq!(
        backend_search_step(BackendSource::EnvVar, true),
        BackendSearchStep::Load(BackendSource::EnvVar)
    );
    assert_eq!(
        backend_search_step(BackendSource::EnvVar, false),
        BackendSearchStep::Try(BackendSource::LibraryDir)
    );
    assert_eq!(
        backend_search_step(BackendSource::LibraryDir, true),
        BackendSearchStep::Load(BackendSource::LibraryDir)
    );
    assert_eq!(
        backend_search_step(BackendSource::LibraryDir, false),
        BackendSearchStep::Try(BackendSource::BuildDir)
    );
    assert_eq!(
        backend_search_step(BackendSource::BuildDir, true),
        BackendSearchStep::Load(BackendSource::BuildDir)
    );
    assert_eq!(
        backend_search_step(BackendSource::BuildDir, false),
        BackendSearchStep::GiveUp
    );
}

#[test]
fn exactly_one_of_several_inits_succeeds() {
    let mut flag = BackendFlag::new();
    let answers: Vec<Result<(), LlamaCppError>> =
        (0..5).map(|_| LlamaBackend::mark_init(&mut flag)).collect();
    assert_eq!(answers[0], Ok(()));
    for a in &answers[1..] {
        assert_eq!(*a, Err(LlamaCppError::BackendAlreadyInitialized));
    }
}
