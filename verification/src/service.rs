//! A named service around a shared task, ready to be hosted by a runtime
//! supervisor; the supervisor plumbing itself lives outside the library.
use std::sync::Arc;

use vstd::prelude::*;

verus! {

/// Relies on Arc::clone: the clone is a new handle to the same value.
#[verifier::external_body]
fn arc_clone<T>(a: &Arc<T>) -> (r: Arc<T>)
    ensures
        r == *a,
{
    Arc::clone(a)
}

/// A service: a name, the shared task it runs, and how many runtime threads
/// it asks for.
pub struct TcpService<T> {
    name: String,
    task: Arc<T>,
    /// The number of threads the service asks its supervisor for.
    pub threads: Option<usize>,
}

impl<T> TcpService<T> {
    /// A service over the given task, asking for one thread.
    pub fn new(name: String, task: Arc<T>) -> (r: Self)
        ensures
            r.spec_name() == name@,
            r.spec_task() == task,
            r.spec_threads() == Some(1usize),
    {
        TcpService { name, task, threads: Some(1) }
    }

    /// How many runtime threads the service asks for.
    pub closed spec fn spec_threads(&self) -> Option<usize> {
        self.threads
    }

    /// The service's name.
    pub closed spec fn spec_name(&self) -> Seq<char> {
        self.name@
    }

    /// The task the service runs.
    pub closed spec fn spec_task(&self) -> Arc<T> {
        self.task
    }

    /// A shared handle to the task, for other logic to hold.
    pub fn task(&self) -> (r: Arc<T>)
        ensures
            r == self.spec_task(),
    {
        arc_clone(&self.task)
    }

    /// The service's name.
    pub fn name(&self) -> (r: &str)
        ensures
            r@ == self.spec_name(),
    {
        self.name.as_str()
    }

    /// How many runtime threads the service asks for.
    pub fn threads(&self) -> (r: Option<usize>)
        ensures
            r == self.spec_threads(),
    {
        self.threads
    }
}

} // verus!
