//! Tool processes: which ones run, and when one has run for too long.

use vstd::prelude::*;
use super::{at_least, HookError, Span, ToolOutput};
use crate::numbers::{decimal, push_decimal};

verus! {

// ---------------------------------------------------------------------------
// The registry of running processes
// ---------------------------------------------------------------------------

/// The processes that are being waited for. When the daemon is told to stop, it
/// passes the signal on to them so that none outlives it.
#[derive(Debug)]
pub struct HookRegistry {
    pub pids: Vec<u32>,
}

impl HookRegistry {
    /// A registry without processes.
    pub fn new() -> (r: HookRegistry)
        ensures
            r.pids@ == Seq::<u32>::empty(),
    {
        HookRegistry { pids: Vec::new() }
    }
}

/// The test for processes other than `pid`.
pub open spec fn other_than(pid: u32) -> spec_fn(u32) -> bool {
    |p: u32| p != pid
}

/// `pids` without `pid`.
pub open spec fn without(pids: Seq<u32>, pid: u32) -> Seq<u32> {
    pids.filter(other_than(pid))
}

/// Adds a process to the registry.
pub fn register_hook_pid(registry: &mut HookRegistry, pid: u32)
    ensures
        final(registry).pids@ == old(registry).pids@.push(pid),
{
    registry.pids.push(pid);
}

/// Removes a process from the registry.
pub fn unregister_hook_pid(registry: &mut HookRegistry, pid: u32)
    ensures
        final(registry).pids@ == without(old(registry).pids@, pid),
        !final(registry).pids@.contains(pid),
{
    let mut kept: Vec<u32> = Vec::new();
    let ghost all = registry.pids@;
    let ghost other = other_than(pid);
    let mut i: usize = 0;
    assert(all.take(0).filter(other) =~= Seq::empty()) by {
        reveal(Seq::filter);
    }
    while i < registry.pids.len()
        invariant
            i <= registry.pids@.len(),
            registry.pids@ == all,
            other == other_than(pid),
            kept@ == all.take(i as int).filter(other),
        decreases registry.pids@.len() - i,
    {
        let p = registry.pids[i];
        proof {
            assert(all.take(i + 1) =~= all.take(i as int).push(p));
            all.take(i as int).lemma_filter_push(p, other);
        }
        if p != pid {
            kept.push(p);
        }
        i += 1;
    }
    assert(all.take(i as int) =~= all);
    registry.pids = kept;
    proof {
        assert forall|j: int| 0 <= j < kept@.len() implies kept@[j] != pid by {
            all.lemma_filter_pred(other, j);
        }
    }
}

/// The processes to signal when the daemon is told to stop: all that are
/// registered.
pub fn kill_all_active_hooks(registry: &HookRegistry) -> (r: Vec<u32>)
    ensures
        r@ == registry.pids@,
{
    vstd::slice::slice_to_vec(registry.pids.as_slice())
}

/// Unregistering a process undoes registering it.
pub proof fn law_unregister_undoes_register(pids: Seq<u32>, pid: u32)
    requires
        !pids.contains(pid),
    ensures
        without(pids.push(pid), pid) == pids,
{
    let other = other_than(pid);
    pids.lemma_filter_push(pid, other);
    lemma_filter_all(pids, other);
}

/// A filter that everything passes keeps everything.
proof fn lemma_filter_all<A>(s: Seq<A>, p: spec_fn(A) -> bool)
    requires
        forall|i: int| 0 <= i < s.len() ==> p(#[trigger] s[i]),
    ensures
        s.filter(p) == s,
    decreases s.len(),
{
    reveal(Seq::filter);
    if s.len() > 0 {
        lemma_filter_all(s.drop_last(), p);
        assert(s.drop_last().push(s.last()) =~= s);
    }
}

/// Unregistering takes out one process and leaves all others, in order.
pub proof fn law_unregister_leaves_the_others(a: Seq<u32>, pid: u32, other: u32)
    ensures
        without(a, pid).contains(other) == (a.contains(other) && other != pid),
        other != pid ==> without(a.push(other), pid) == without(a, pid).push(other),
        without(a.push(pid), pid) == without(a, pid),
{
    let test = other_than(pid);
    a.lemma_filter_push(other, test);
    a.lemma_filter_push(pid, test);
    if a.contains(other) && other != pid {
        let i = choose|i: int| 0 <= i < a.len() && a[i] == other;
        a.lemma_filter_contains(test, i);
    }
    if without(a, pid).contains(other) {
        let i = choose|i: int| 0 <= i < without(a, pid).len() && without(a, pid)[i] == other;
        a.lemma_filter_pred(test, i);
        a.lemma_filter_contains_rev(test, other);
    }
}

// ---------------------------------------------------------------------------
// One run of a tool
// ---------------------------------------------------------------------------

/// A run of a tool, from before the process starts until it is over.
#[derive(Debug)]
pub struct HookRun {
    pub name: String,
    pub timeout: Span,
    /// The process, while there is one.
    pub pid: Option<u32>,
    /// Whether the process has run for too long and is being killed.
    pub expired: bool,
}

/// What happens in a run.
#[derive(Debug)]
pub enum RunEvent {
    /// The process was started.
    Spawned { pid: u32 },
    /// The process could not be started.
    SpawnFailed { error: String },
    /// The process has not finished; it has been running for `elapsed`.
    Running { elapsed: Span },
    /// The process could not be asked whether it has finished.
    WaitFailed { error: String },
    /// The process has finished.
    Exited { output: ToolOutput },
    /// The process was killed and is gone.
    Killed,
}

/// What to do next in a run.
#[derive(Debug)]
pub enum RunStep {
    /// Look whether the process has finished.
    Look,
    /// Wait for the poll interval, then look again.
    Sleep,
    /// Kill the process and wait until it is gone.
    Kill,
    /// The run is over.
    Done(Result<ToolOutput, HookError>),
}

/// The failure of a tool that ran for too long.
pub open spec fn timeout_text(name: Seq<char>, timeout: Span) -> Seq<char> {
    name + " timed out after "@ + decimal(timeout.secs as nat) + "s and was killed by pulci"@
}

impl HookRun {
    /// A run that has not started.
    pub fn new(name: &str, timeout: Span) -> (r: HookRun)
        ensures
            r.name@ == name@,
            r.timeout == timeout,
            r.pid is None,
            !r.expired,
    {
        HookRun { name: name.to_owned(), timeout, pid: None, expired: false }
    }

    /// Takes a run one step further. A process is registered as soon as it has
    /// started, and it is unregistered whichever way the run ends.
    pub fn step(&mut self, registry: &mut HookRegistry, event: RunEvent) -> (r: RunStep)
        requires
            (event is Spawned || event is SpawnFailed) == (old(self).pid is None),
            (event is Killed) == old(self).expired,
        ensures
            final(self).name == old(self).name,
            final(self).timeout == old(self).timeout,
            (final(self).pid is None) == (r is Done),
            final(self).expired == (r is Kill),
            final(self).pid is None && old(self).pid is Some ==>
                !final(registry).pids@.contains(old(self).pid->0),
            match event {
                RunEvent::Spawned { pid } => {
                    &&& r is Look
                    &&& final(self).pid == Some(pid)
                    &&& final(registry).pids@ == old(registry).pids@.push(pid)
                },
                RunEvent::SpawnFailed { error } => {
                    &&& r matches RunStep::Done(Err(e)) && e@ == error@
                    &&& final(registry).pids@ == old(registry).pids@
                },
                RunEvent::Running { elapsed } => if at_least(elapsed, old(self).timeout) {
                    &&& r is Kill
                    &&& final(self).pid == old(self).pid
                    &&& final(registry).pids@ == old(registry).pids@
                } else {
                    &&& r is Sleep
                    &&& final(self).pid == old(self).pid
                    &&& final(registry).pids@ == old(registry).pids@
                },
                RunEvent::WaitFailed { error } => {
                    &&& r matches RunStep::Done(Err(e)) && e@ == error@
                    &&& final(registry).pids@ == without(
                        old(registry).pids@,
                        old(self).pid->0,
                    )
                },
                RunEvent::Exited { output } => {
                    &&& r == RunStep::Done(Ok(output))
                    &&& final(registry).pids@ == without(
                        old(registry).pids@,
                        old(self).pid->0,
                    )
                },
                RunEvent::Killed => {
                    &&& r matches RunStep::Done(Err(e)) && e@ == timeout_text(
                        old(self).name@,
                        old(self).timeout,
                    )
                    &&& final(registry).pids@ == without(
                        old(registry).pids@,
                        old(self).pid->0,
                    )
                },
            },
    {
        match event {
            RunEvent::Spawned { pid } => {
                register_hook_pid(registry, pid);
                self.pid = Some(pid);
                RunStep::Look
            },
            RunEvent::SpawnFailed { error } => RunStep::Done(Err(HookError { message: error })),
            RunEvent::Running { elapsed } => {
                if elapsed.reaches(self.timeout) {
                    self.expired = true;
                    RunStep::Kill
                } else {
                    RunStep::Sleep
                }
            },
            RunEvent::WaitFailed { error } => {
                self.end(registry);
                RunStep::Done(Err(HookError { message: error }))
            },
            RunEvent::Exited { output } => {
                self.end(registry);
                RunStep::Done(Ok(output))
            },
            RunEvent::Killed => {
                self.end(registry);
                let mut message = self.name.clone();
                message.append(" timed out after ");
                push_decimal(&mut message, self.timeout.secs);
                message.append("s and was killed by pulci");
                RunStep::Done(Err(HookError { message }))
            },
        }
    }

    /// Ends a run.
    fn end(&mut self, registry: &mut HookRegistry)
        requires
            old(self).pid is Some,
        ensures
            final(self).pid is None,
            !final(self).expired,
            final(self).name == old(self).name,
            final(self).timeout == old(self).timeout,
            final(registry).pids@ == without(old(registry).pids@, old(self).pid->0),
            !final(registry).pids@.contains(old(self).pid->0),
    {
        if let Some(pid) = self.pid {
            unregister_hook_pid(registry, pid);
        }
        self.pid = None;
        self.expired = false;
    }
}

// ---------------------------------------------------------------------------
// Laws
// ---------------------------------------------------------------------------

/// A tool that ran for too long is reported by its name and the seconds it had.
pub proof fn law_timeout_names_tool_and_limit(name: Seq<char>, timeout: Span)
    ensures
        (name + " timed out after "@ + decimal(timeout.secs as nat) + "s"@).is_prefix_of(
            timeout_text(name, timeout),
        ),
        timeout_text(name, timeout) == name + (" timed out after "@ + (decimal(timeout.secs as nat)
            + "s and was killed by pulci"@)),
{
    reveal_strlit("s");
    reveal_strlit("s and was killed by pulci");
    let head = name + " timed out after "@ + decimal(timeout.secs as nat) + "s"@;
    let whole = timeout_text(name, timeout);
    assert(whole =~= name + (" timed out after "@ + (decimal(timeout.secs as nat)
        + "s and was killed by pulci"@)));
    assert(head =~= whole.subrange(0, head.len() as int));
}

} // verus!
