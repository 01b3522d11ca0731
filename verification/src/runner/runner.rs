use vstd::prelude::*;

verus! {

/// The number of processors that `num_cpus::get` reports for this machine.
///
/// Trusted: `get` is documented to return at least 1. Nothing else is
/// claimed of the number; it depends on the machine and on what the
/// process is allowed to use.
#[verifier::external_body]
pub(crate) fn available_cpus() -> (n: usize)
    ensures
        n >= 1,
{
    num_cpus::get()
}

/// The number of workers for a machine with `cpus` processors: one more
/// than it has processors.
pub fn workers_for(cpus: usize) -> (n: usize)
    requires
        cpus < usize::MAX,
    ensures
        n == cpus + 1,
{
    cpus + 1
}

/// The number of workers for this machine: one more than it has
/// processors, as far as a number can say so.
pub fn default_workers() -> (n: usize)
    ensures
        n >= 2,
{
    let cpus = available_cpus();
    if cpus < usize::MAX {
        workers_for(cpus)
    } else {
        cpus
    }
}

} // verus!
