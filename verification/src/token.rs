//! Thread registration with the collector, and the tokens that prove it.
//!
//! A thread may touch collected memory only while the collector scans its stack,
//! that is, once it is registered. `Registration` is the per-thread record of that
//! fact; the tokens can only be had from it while it says so.
use crate::private::Sealed;
use vstd::prelude::*;

verus! {

/// The value the collector returns when a thread registration succeeds.
pub const GC_SUCCESS: i32 = 0;

/// Evidence that the current thread is registered with the collector.
/// Only the two token types of this crate implement it.
pub trait GcToken: Sealed {}

/// Token for a thread registered by `init` (the main thread) or found registered.
pub struct ThreadToken {
    _non_send: core::marker::PhantomData<std::rc::Rc<()>>,
}

impl Sealed for ThreadToken {}

impl GcToken for ThreadToken {}

/// Token for a thread registered by `init_thread`; dropping it unregisters the thread.
pub struct ThreadGuard {
    _non_send: core::marker::PhantomData<std::rc::Rc<()>>,
}

impl Sealed for ThreadGuard {}

impl GcToken for ThreadGuard {}

/// Whether the current thread has been registered with the collector.
pub struct Registration {
    registered: bool,
}

impl Registration {
    /// True once `init` or `init_thread` has run on this thread.
    pub closed spec fn registered(&self) -> bool {
        self.registered
    }

    /// A thread starts unregistered.
    pub fn new() -> (r: Registration)
        ensures
            !r.registered(),
    {
        Registration { registered: false }
    }

    pub fn is_registered(&self) -> (r: bool)
        ensures
            r == self.registered(),
    {
        self.registered
    }

    /// Whether `init_thread` may go ahead: the thread is neither recorded as
    /// registered here nor reported as registered by the collector
    /// (`gc_thread_is_registered` is what `GC_thread_is_registered` returned).
    pub fn may_register(&self, gc_thread_is_registered: i32) -> (r: bool)
        ensures
            r == (!self.registered() && gc_thread_is_registered == 0),
    {
        !self.registered && gc_thread_is_registered == 0
    }
}

/// Whether the code returned by `GC_register_my_thread` reports success.
pub fn registration_succeeded(code: i32) -> (r: bool)
    ensures
        r == (code == GC_SUCCESS),
{
    code == GC_SUCCESS
}

/// Records the initialisation of the collector on the calling thread
/// (after `GC_init` and `GC_allow_register_threads`) and hands out its token.
pub fn init(state: &mut Registration) -> (t: ThreadToken)
    ensures
        final(state).registered(),
{
    state.registered = true;
    ThreadToken::new()
}

/// Records the registration of the calling thread (after `GC_register_my_thread`
/// succeeded) and hands out the guard that unregisters it.
pub fn init_thread(state: &mut Registration) -> (g: ThreadGuard)
    requires
        !old(state).registered(),
    ensures
        final(state).registered(),
{
    state.registered = true;
    ThreadGuard::new()
}

/// Records that the calling thread has left the collector (after
/// `GC_unregister_my_thread`), consuming its guard: no token can be had afterwards.
pub fn unregister(state: &mut Registration, _guard: ThreadGuard)
    ensures
        !final(state).registered(),
{
    state.registered = false;
}

impl ThreadToken {
    pub(crate) fn new() -> (t: ThreadToken) {
        ThreadToken { _non_send: core::marker::PhantomData }
    }

    /// The token of a registered thread.
    pub fn get(state: &Registration) -> (t: ThreadToken)
        requires
            state.registered(),
    {
        ThreadToken::new()
    }

    /// The token of the thread if it is registered, `None` otherwise.
    pub fn try_get(state: &Registration) -> (t: Option<ThreadToken>)
        ensures
            t is Some <==> state.registered(),
    {
        if state.registered {
            Some(ThreadToken::new())
        } else {
            None
        }
    }
}

impl ThreadGuard {
    pub(crate) fn new() -> (g: ThreadGuard) {
        ThreadGuard { _non_send: core::marker::PhantomData }
    }
}

} // verus!
