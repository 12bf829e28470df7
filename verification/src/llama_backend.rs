//! The llama backend: the once-only initialisation protocol and the NUMA strategy codes.
//!
//! llama.cpp keeps process-wide state that must be set up exactly once before any model is
//! loaded and torn down when the last user is gone. The protocol is held in a [`BackendFlag`]:
//! the caller keeps one flag for the whole process and hands it to [`LlamaBackend::init`],
//! [`LlamaBackend::init_numa`] and [`LlamaBackend::free`].

use vstd::prelude::*;

use crate::error::LlamaCppError;

verus! {

/// Representation of an initialized llama backend
/// This is required as a parameter for most llama functions as the backend must be initialized
/// before any llama functions are called. This type is proof of initialization.
///
/// Only [`LlamaBackend::init`] and [`LlamaBackend::init_numa`] make one.
#[derive(Eq, PartialEq, Debug, Structural)]
pub struct LlamaBackend {
    initialized: bool,
}

/// A call into llama.cpp that a successful initialisation asks its caller to make, in order.
#[derive(Eq, PartialEq, Debug, Clone, Copy, Structural)]
pub enum BackendCall {
    /// `llama_backend_init`: set up llama.cpp's global state.
    BackendInit,
    /// `llama_numa_init` with this ggml NUMA strategy code.
    NumaInit(u32),
}

/// Whether the process-wide llama backend is currently initialized.
#[derive(Debug)]
pub struct BackendFlag {
    initialized: bool,
}

impl View for BackendFlag {
    type V = bool;

    closed spec fn view(&self) -> bool {
        self.initialized
    }
}

impl BackendFlag {
    /// A flag for a process in which the backend has not been initialized yet.
    pub fn new() -> (f: Self)
        ensures
            !f@,
    {
        BackendFlag { initialized: false }
    }

    /// Is the backend currently initialized?
    pub fn is_initialized(&self) -> (b: bool)
        ensures
            b == self@,
    {
        self.initialized
    }
}

/// What marking the backend as initialized answers, given whether it already was.
pub open spec fn spec_mark_init_result(initialized: bool) -> Result<(), LlamaCppError> {
    if initialized {
        Err(LlamaCppError::BackendAlreadyInitialized)
    } else {
        Ok(())
    }
}

/// The backend can only be initialized once: after one initialisation attempt, whatever it
/// answered, a second one answers `BackendAlreadyInitialized`.
pub proof fn law_init_only_once()
    ensures
        spec_mark_init_result(true) == Err::<(), _>(
            LlamaCppError::BackendAlreadyInitialized,
        ),
{
}

/// The backend can be initialized again after it has been dropped.
pub proof fn law_init_again_after_free()
    ensures
        spec_mark_init_result(false) == Ok::<(), LlamaCppError>(()),
{
}

/// The answers to `n` initialisation attempts made one after another (as the process-wide
/// lock orders them), starting from the flag `initialized`, with no drop in between.
pub open spec fn spec_mark_init_run(initialized: bool, n: nat) -> Seq<Result<(), LlamaCppError>>
    decreases n,
{
    if n == 0 {
        Seq::empty()
    } else {
        seq![spec_mark_init_result(initialized)] + spec_mark_init_run(true, (n - 1) as nat)
    }
}

/// Once the backend is initialized, every further attempt answers `BackendAlreadyInitialized`.
proof fn lemma_run_after_init_fails(n: nat)
    ensures
        spec_mark_init_run(true, n).len() == n,
        forall|i: int|
            0 <= i < n ==> #[trigger] spec_mark_init_run(true, n)[i] == Err::<(), _>(
                LlamaCppError::BackendAlreadyInitialized,
            ),
    decreases n,
{
    if n > 0 {
        lemma_run_after_init_fails((n - 1) as nat);
        let rest = spec_mark_init_run(true, (n - 1) as nat);
        assert forall|i: int| 0 <= i < n implies #[trigger] spec_mark_init_run(true, n)[i] == Err::<
            (),
            _,
        >(LlamaCppError::BackendAlreadyInitialized) by {
            if i > 0 {
                assert(spec_mark_init_run(true, n)[i] == rest[i - 1]);
            }
        }
    }
}

/// Of several initialisation attempts made one after another on an uninitialized backend,
/// exactly one succeeds: the first; all others answer `BackendAlreadyInitialized`.
pub proof fn law_exactly_one_init_succeeds(n: nat)
    requires
        n >= 1,
    ensures
        spec_mark_init_run(false, n).len() == n,
        spec_mark_init_run(false, n)[0] == Ok::<(), LlamaCppError>(()),
        forall|i: int|
            1 <= i < n ==> #[trigger] spec_mark_init_run(false, n)[i] == Err::<(), _>(
                LlamaCppError::BackendAlreadyInitialized,
            ),
{
    lemma_run_after_init_fails((n - 1) as nat);
    let rest = spec_mark_init_run(true, (n - 1) as nat);
    assert forall|i: int| 1 <= i < n implies #[trigger] spec_mark_init_run(false, n)[i] == Err::<
        (),
        _,
    >(LlamaCppError::BackendAlreadyInitialized) by {
        assert(spec_mark_init_run(false, n)[i] == rest[i - 1]);
    }
}

impl LlamaBackend {
    /// Mark the llama backend as initialized.
    ///
    /// Succeeds, and sets the flag, exactly when the backend was not initialized yet;
    /// otherwise the flag is left as it was and `BackendAlreadyInitialized` is returned.
    pub fn mark_init(flag: &mut BackendFlag) -> (r: Result<(), LlamaCppError>)
        ensures
            r == spec_mark_init_result(old(flag)@),
            final(flag)@,
    {
        if flag.initialized {
            Err(LlamaCppError::BackendAlreadyInitialized)
        } else {
            flag.initialized = true;
            Ok(())
        }
    }

    /// Initialize the llama backend (without numa).
    ///
    /// On `Ok` the caller makes the returned calls into llama.cpp, in order: here just
    /// `llama_backend_init`; the returned value is the proof of initialization. The backend can
    /// only be initialized once: while it is, this returns `BackendAlreadyInitialized`, and no
    /// call is to be made.
    pub fn init(flag: &mut BackendFlag) -> (r: Result<(LlamaBackend, Vec<BackendCall>), LlamaCppError>)
        ensures
            r is Ok <==> !old(flag)@,
            r matches Ok((_, calls)) ==> calls@ == seq![BackendCall::BackendInit],
            r is Err ==> r->Err_0 == LlamaCppError::BackendAlreadyInitialized,
            final(flag)@,
    {
        match Self::mark_init(flag) {
            Ok(()) => {
                let mut calls: Vec<BackendCall> = Vec::new();
                calls.push(BackendCall::BackendInit);
                Ok((LlamaBackend { initialized: true }, calls))
            },
            Err(e) => Err(e),
        }
    }

    /// Initialize the llama backend (with numa).
    ///
    /// As [`LlamaBackend::init`]; on `Ok` the caller makes two calls, in order:
    /// `llama_backend_init`, then `llama_numa_init` with the ggml code of `strategy`.
    pub fn init_numa(flag: &mut BackendFlag, strategy: NumaStrategy) -> (r: Result<
        (LlamaBackend, Vec<BackendCall>),
        LlamaCppError,
    >)
        ensures
            r is Ok <==> !old(flag)@,
            r matches Ok((_, calls)) ==> calls@ == seq![
                BackendCall::BackendInit,
                BackendCall::NumaInit(spec_numa_code(strategy)),
            ],
            r is Err ==> r->Err_0 == LlamaCppError::BackendAlreadyInitialized,
            final(flag)@,
    {
        match Self::mark_init(flag) {
            Ok(()) => {
                let mut calls: Vec<BackendCall> = Vec::new();
                calls.push(BackendCall::BackendInit);
                calls.push(BackendCall::NumaInit(numa_code(strategy)));
                assert(calls@ =~= seq![
                    BackendCall::BackendInit,
                    BackendCall::NumaInit(spec_numa_code(strategy)),
                ]);
                Ok((LlamaBackend { initialized: true }, calls))
            },
            Err(e) => Err(e),
        }
    }

    /// Free the llama backend: the backend value is given up and the flag cleared, after which
    /// the backend can be initialized again. The caller then makes llama.cpp's
    /// `llama_backend_free` call.
    ///
    /// A backend value only exists after a successful initialisation, so the flag is set on
    /// entry.
    pub fn free(self, flag: &mut BackendFlag)
        requires
            old(flag)@,
        ensures
            !final(flag)@,
    {
        flag.initialized = false;
    }
}

/// A rusty wrapper around `numa_strategy`.
#[derive(Debug, Eq, PartialEq, Copy, Clone, Structural)]
pub enum NumaStrategy {
    /// The numa strategy is disabled.
    DISABLED,
    /// help wanted: what does this do?
    DISTRIBUTE,
    /// help wanted: what does this do?
    ISOLATE,
    /// help wanted: what does this do?
    NUMACTL,
    /// help wanted: what does this do?
    MIRROR,
    /// help wanted: what does this do?
    COUNT,
}

/// ggml's code for [`NumaStrategy::DISABLED`] (`enum ggml_numa_strategy`).
pub const GGML_NUMA_STRATEGY_DISABLED: u32 = 0;
/// ggml's code for [`NumaStrategy::DISTRIBUTE`].
pub const GGML_NUMA_STRATEGY_DISTRIBUTE: u32 = 1;
/// ggml's code for [`NumaStrategy::ISOLATE`].
pub const GGML_NUMA_STRATEGY_ISOLATE: u32 = 2;
/// ggml's code for [`NumaStrategy::NUMACTL`].
pub const GGML_NUMA_STRATEGY_NUMACTL: u32 = 3;
/// ggml's code for [`NumaStrategy::MIRROR`].
pub const GGML_NUMA_STRATEGY_MIRROR: u32 = 4;
/// ggml's code for [`NumaStrategy::COUNT`].
pub const GGML_NUMA_STRATEGY_COUNT: u32 = 5;

/// An invalid numa strategy was provided.
#[derive(Debug, Eq, PartialEq, Copy, Clone, Structural)]
pub struct InvalidNumaStrategy(
    /// The invalid numa strategy that was provided.
    pub u32,
);

/// The ggml code of a strategy.
pub open spec fn spec_numa_code(s: NumaStrategy) -> u32 {
    match s {
        NumaStrategy::DISABLED => GGML_NUMA_STRATEGY_DISABLED,
        NumaStrategy::DISTRIBUTE => GGML_NUMA_STRATEGY_DISTRIBUTE,
        NumaStrategy::ISOLATE => GGML_NUMA_STRATEGY_ISOLATE,
        NumaStrategy::NUMACTL => GGML_NUMA_STRATEGY_NUMACTL,
        NumaStrategy::MIRROR => GGML_NUMA_STRATEGY_MIRROR,
        NumaStrategy::COUNT => GGML_NUMA_STRATEGY_COUNT,
    }
}

/// The strategy a ggml code names, or the code itself as the error when it names none.
pub open spec fn spec_numa_from_code(value: u32) -> Result<NumaStrategy, InvalidNumaStrategy> {
    if value == GGML_NUMA_STRATEGY_DISABLED {
        Ok(NumaStrategy::DISABLED)
    } else if value == GGML_NUMA_STRATEGY_DISTRIBUTE {
        Ok(NumaStrategy::DISTRIBUTE)
    } else if value == GGML_NUMA_STRATEGY_ISOLATE {
        Ok(NumaStrategy::ISOLATE)
    } else if value == GGML_NUMA_STRATEGY_NUMACTL {
        Ok(NumaStrategy::NUMACTL)
    } else if value == GGML_NUMA_STRATEGY_MIRROR {
        Ok(NumaStrategy::MIRROR)
    } else if value == GGML_NUMA_STRATEGY_COUNT {
        Ok(NumaStrategy::COUNT)
    } else {
        Err(InvalidNumaStrategy(value))
    }
}

/// The ggml code of a strategy.
pub fn numa_code(value: NumaStrategy) -> (code: u32)
    ensures
        code == spec_numa_code(value),
{
    match value {
        NumaStrategy::DISABLED => GGML_NUMA_STRATEGY_DISABLED,
        NumaStrategy::DISTRIBUTE => GGML_NUMA_STRATEGY_DISTRIBUTE,
        NumaStrategy::ISOLATE => GGML_NUMA_STRATEGY_ISOLATE,
        NumaStrategy::NUMACTL => GGML_NUMA_STRATEGY_NUMACTL,
        NumaStrategy::MIRROR => GGML_NUMA_STRATEGY_MIRROR,
        NumaStrategy::COUNT => GGML_NUMA_STRATEGY_COUNT,
    }
}

impl From<NumaStrategy> for u32 {
    fn from(value: NumaStrategy) -> (code: u32) {
        numa_code(value)
    }
}

impl vstd::std_specs::convert::FromSpecImpl<NumaStrategy> for u32 {
    open spec fn obeys_from_spec() -> bool {
        true
    }

    open spec fn from_spec(v: NumaStrategy) -> u32 {
        spec_numa_code(v)
    }
}

impl TryFrom<u32> for NumaStrategy {
    type Error = InvalidNumaStrategy;

    fn try_from(value: u32) -> (r: Result<Self, Self::Error>) {
        if value == GGML_NUMA_STRATEGY_DISABLED {
            Ok(Self::DISABLED)
        } else if value == GGML_NUMA_STRATEGY_DISTRIBUTE {
            Ok(Self::DISTRIBUTE)
        } else if value == GGML_NUMA_STRATEGY_ISOLATE {
            Ok(Self::ISOLATE)
        } else if value == GGML_NUMA_STRATEGY_NUMACTL {
            Ok(Self::NUMACTL)
        } else if value == GGML_NUMA_STRATEGY_MIRROR {
            Ok(Self::MIRROR)
        } else if value == GGML_NUMA_STRATEGY_COUNT {
            Ok(Self::COUNT)
        } else {
            Err(InvalidNumaStrategy(value))
        }
    }
}

impl vstd::std_specs::convert::TryFromSpecImpl<u32> for NumaStrategy {
    open spec fn obeys_try_from_spec() -> bool {
        true
    }

    open spec fn try_from_spec(v: u32) -> Result<Self, InvalidNumaStrategy> {
        spec_numa_from_code(v)
    }
}

/// Where ggml's dynamically loaded backend modules are looked for, in the order they are tried.
#[derive(Debug, Eq, PartialEq, Copy, Clone, Structural)]
pub enum BackendSource {
    /// The directory named by the `GGML_BACKEND_PATH` environment variable.
    EnvVar,
    /// The directory holding the shared library that exports `llama_backend_init`.
    LibraryDir,
    /// The backends directory recorded when the library was built.
    BuildDir,
}

/// What to do next while looking for the backend modules.
#[derive(Debug, Eq, PartialEq, Copy, Clone, Structural)]
pub enum BackendSearchStep {
    /// Load all backend modules from this source's directory, and stop.
    Load(BackendSource),
    /// Look at this source's directory next.
    Try(BackendSource),
    /// No directory was found: loading backends is a no-op.
    GiveUp,
}

/// The source tried after `s`, if any.
pub open spec fn spec_next_source(s: BackendSource) -> Option<BackendSource> {
    match s {
        BackendSource::EnvVar => Some(BackendSource::LibraryDir),
        BackendSource::LibraryDir => Some(BackendSource::BuildDir),
        BackendSource::BuildDir => None,
    }
}

/// The step after looking at `current`: load from it when it gave a directory, otherwise try
/// the next source, or give up after the last one.
pub open spec fn spec_backend_search_step(current: BackendSource, is_dir: bool) -> BackendSearchStep {
    if is_dir {
        BackendSearchStep::Load(current)
    } else {
        match spec_next_source(current) {
            Some(next) => BackendSearchStep::Try(next),
            None => BackendSearchStep::GiveUp,
        }
    }
}

/// The source that the backend modules are loaded from, given which sources yield a directory:
/// the first in the order environment variable, library directory, build directory.
pub open spec fn spec_backend_choice(env_dir: bool, lib_dir: bool, build_dir: bool) -> Option<
    BackendSource,
> {
    if env_dir {
        Some(BackendSource::EnvVar)
    } else if lib_dir {
        Some(BackendSource::LibraryDir)
    } else if build_dir {
        Some(BackendSource::BuildDir)
    } else {
        None
    }
}

/// The first source to look at.
pub fn backend_search_start() -> (s: BackendSource)
    ensures
        s == BackendSource::EnvVar,
{
    BackendSource::EnvVar
}

/// Load GGML backend modules using a multi-strategy search: the decision after looking at one
/// source.
///
/// 1. `GGML_BACKEND_PATH` environment variable (if set)
/// 2. Same directory as `libllama.so`
/// 3. Compile-time backends directory (from build output)
///
/// The caller looks at `current` (`is_dir`: it names an existing directory) and then performs
/// the returned step.
pub fn backend_search_step(current: BackendSource, is_dir: bool) -> (step: BackendSearchStep)
    ensures
        step == spec_backend_search_step(current, is_dir),
{
    if is_dir {
        return BackendSearchStep::Load(current);
    }
    match current {
        BackendSource::EnvVar => BackendSearchStep::Try(BackendSource::LibraryDir),
        BackendSource::LibraryDir => BackendSearchStep::Try(BackendSource::BuildDir),
        BackendSource::BuildDir => BackendSearchStep::GiveUp,
    }
}

/// Running the search from the start, the modules are loaded from the first source that yields
/// a directory, and from none when no source does.
pub proof fn law_backend_search_first_directory(env_dir: bool, lib_dir: bool, build_dir: bool)
    ensures
        ({
            let s1 = spec_backend_search_step(BackendSource::EnvVar, env_dir);
            let s2 = spec_backend_search_step(BackendSource::LibraryDir, lib_dir);
            let s3 = spec_backend_search_step(BackendSource::BuildDir, build_dir);
            let outcome = if s1 is Load {
                s1
            } else if s2 is Load {
                s2
            } else {
                s3
            };
            &&& s1 is Load || s1 == BackendSearchStep::Try(BackendSource::LibraryDir)
            &&& s2 is Load || s2 == BackendSearchStep::Try(BackendSource::BuildDir)
            &&& match spec_backend_choice(env_dir, lib_dir, build_dir) {
                Some(src) => outcome == BackendSearchStep::Load(src),
                None => outcome == BackendSearchStep::GiveUp,
            }
        }),
{
}

/// Converting a strategy to its ggml code and back gives the strategy again.
pub proof fn law_numa_code_round_trip(strategy: NumaStrategy)
    ensures
        spec_numa_from_code(spec_numa_code(strategy)) == Ok::<NumaStrategy, InvalidNumaStrategy>(
            strategy,
        ),
{
}

/// A code that names a strategy is that strategy's code; the codes that name none are those
/// above `GGML_NUMA_STRATEGY_COUNT`, and the error carries the code.
pub proof fn law_numa_from_code_exact(value: u32)
    ensures
        spec_numa_from_code(value) matches Ok(s) ==> spec_numa_code(s) == value,
        spec_numa_from_code(value) is Err <==> value > GGML_NUMA_STRATEGY_COUNT,
        spec_numa_from_code(value) is Err ==> spec_numa_from_code(value)->Err_0 == InvalidNumaStrategy(
            value,
        ),
{
}

} // verus!
