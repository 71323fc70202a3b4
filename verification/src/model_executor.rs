//! Model invocation executor: a seam for attaching local model backends to
//! graph LLM nodes without putting lease material in prompts, graph state,
//! provider bodies, or logs.
//!
//! When an executor is attached to a run, an LLM node checks it before
//! falling through to the default HTTP provider path. If no executor is
//! attached, the existing path operates identically.
use vstd::prelude::*;
use std::sync::Arc;
use std::sync::Mutex;

verus! {

/// `std::sync::Mutex`, carried opaquely: the test executor records the
/// handles it was given back in one.
#[verifier::external_type_specification]
#[verifier::external_body]
#[verifier::reject_recursive_types(T)]
pub struct ExMutex<T: ?Sized>(Mutex<T>);

/// Opaque handle returned by an executor on successful acquisition.
/// The lease digest is the only field safe for logs/receipts.
#[derive(Debug, Clone)]
pub struct BackendHandle {
    /// Non-replayable lease digest over the serialized lease.
    /// Safe for logs: contains no bearer secret.
    pub lease_digest: String,
    /// Content-addressed state ID. Not a bearer secret.
    pub state_id: String,
}

/// A model invocation executor that can be attached to a graph run.
///
/// Security invariants:
/// - Lease material must never enter the rendered prompt, graph state,
///   node output, provider request body, or logs.
/// - Only the `lease_digest` in `BackendHandle` is safe for receipts.
/// - The default provider path must remain identical when no executor
///   is attached.
pub trait ModelInvocationExecutor: Send + Sync {
    /// Whether `h` is an answer this executor may give to an acquisition
    /// for the run/node/attempt tuple: a handle when the tuple is eligible
    /// for local execution, `None` when it is not.
    spec fn grants(&self, run_id: Seq<char>, node_id: Seq<char>, attempt_id: u64, h: Option<BackendHandle>) -> bool;

    /// Called before an LLM node executes. Returns a backend handle if the
    /// run/node/attempt tuple is eligible for local execution, or `None`
    /// to fall through to the default provider path.
    fn acquire(&self, run_id: &str, node_id: &str, attempt_id: u64) -> (r: Option<BackendHandle>)
        ensures
            self.grants(run_id@, node_id@, attempt_id, r),
    ;

    /// Called after node completion (success or failure). The executor
    /// may release the lease, update accounting, or perform cleanup.
    fn release(&self, handle: BackendHandle);
}

/// A no-op executor used in tests to exercise the seam without model calls.
pub struct TestExecutor {
    /// If true, acquire always returns a handle.
    pub always_acquire: bool,
    /// Tracks released handles for test assertions.
    pub released: Mutex<Vec<BackendHandle>>,
}

/// `Mutex::new`: a fresh mutex around `v`.
#[verifier::external_body]
fn new_mutex<T>(v: T) -> Mutex<T> {
    Mutex::new(v)
}

/// Locks `m` (taking over a lock that another thread poisoned) and appends
/// `h` to the vector it guards. What the mutex holds is not modelled, so
/// nothing is stated of it.
#[verifier::external_body]
fn push_locked(m: &Mutex<Vec<BackendHandle>>, h: BackendHandle) {
    match m.lock() {
        Ok(mut guard) => guard.push(h),
        Err(poisoned) => poisoned.into_inner().push(h),
    }
}

impl TestExecutor {
    pub fn new(always_acquire: bool) -> (r: Self)
        ensures
            r.always_acquire == always_acquire,
    {
        TestExecutor { always_acquire, released: new_mutex(Vec::new()) }
    }
}

/// The lease digest of the test executor's handles.
pub open spec fn test_lease_digest() -> Seq<char> {
    "test-lease-digest-0000000000000000000000000000000000000000000000000000000000000000"@
}

/// The state id of the test executor's handles.
pub open spec fn test_state_id() -> Seq<char> {
    "test-state-id-0000000000000000000000000000000000000000000000000000000000000000"@
}

impl ModelInvocationExecutor for TestExecutor {
    /// The test executor hands out its fixed handle to every tuple when
    /// configured to acquire, and nothing otherwise.
    open spec fn grants(&self, run_id: Seq<char>, node_id: Seq<char>, attempt_id: u64, h: Option<BackendHandle>) -> bool {
        if self.always_acquire {
            h matches Some(b) && b.lease_digest@ == test_lease_digest() && b.state_id@ == test_state_id()
        } else {
            h is None
        }
    }

    fn acquire(&self, run_id: &str, node_id: &str, attempt_id: u64) -> (r: Option<BackendHandle>)
        ensures
            r is Some <==> self.always_acquire,
            r matches Some(h) ==> h.lease_digest@
                == "test-lease-digest-0000000000000000000000000000000000000000000000000000000000000000"@,
    {
        if self.always_acquire {
            Some(
                BackendHandle {
                    lease_digest: String::from_str(
                        "test-lease-digest-0000000000000000000000000000000000000000000000000000000000000000",
                    ),
                    state_id: String::from_str(
                        "test-state-id-0000000000000000000000000000000000000000000000000000000000000000",
                    ),
                },
            )
        } else {
            None
        }
    }

    fn release(&self, handle: BackendHandle) {
        push_locked(&self.released, handle);
    }
}

/// Thread-safe wrapper for an optional executor.
#[derive(Clone)]
pub struct ExecutorHandle {
    inner: Option<Arc<dyn ModelInvocationExecutor>>,
}

impl ExecutorHandle {
    /// Whether an executor is attached.
    pub closed spec fn attached(&self) -> bool {
        self.inner is Some
    }

    /// Create a handle with no executor attached.
    pub fn none() -> (r: Self)
        ensures
            !r.attached(),
    {
        ExecutorHandle { inner: None }
    }

    /// Attach an executor.
    pub fn with(executor: Arc<dyn ModelInvocationExecutor>) -> (r: Self)
        ensures
            r.attached(),
            forall|run_id: Seq<char>, node_id: Seq<char>, attempt_id: u64, h: Option<BackendHandle>|
                #[trigger] r.answers(run_id, node_id, attempt_id, h) == executor.grants(run_id, node_id, attempt_id, h),
    {
        let mut inner = None;
        inner = Some(executor);
        ExecutorHandle { inner }
    }

    /// Whether `h` is an answer the attached executor may give for the
    /// tuple; with no executor, only `None` is.
    pub closed spec fn answers(&self, run_id: Seq<char>, node_id: Seq<char>, attempt_id: u64, h: Option<BackendHandle>) -> bool {
        match &self.inner {
            Some(e) => e.grants(run_id, node_id, attempt_id, h),
            None => h is None,
        }
    }

    /// Try to acquire a backend handle: the attached executor's answer for
    /// the same run, node and attempt, or `None` when none is attached.
    pub fn try_acquire(&self, run_id: &str, node_id: &str, attempt_id: u64) -> (r: Option<BackendHandle>)
        ensures
            !self.attached() ==> r is None,
            self.answers(run_id@, node_id@, attempt_id, r),
    {
        match &self.inner {
            Some(e) => e.acquire(run_id, node_id, attempt_id),
            None => None,
        }
    }

    /// Release a previously acquired handle.
    pub fn release(&self, handle: BackendHandle) {
        if let Some(executor) = &self.inner {
            executor.release(handle);
        }
    }

    /// True if an executor is attached.
    pub fn is_attached(&self) -> (r: bool)
        ensures
            r == self.attached(),
    {
        self.inner.is_some()
    }
}

} // verus!
