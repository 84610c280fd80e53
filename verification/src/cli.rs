//! The decision behind the command line: which roots to scan, if any.

use vstd::prelude::*;

verus! {

/// What one program invocation should do.
#[derive(Debug, PartialEq, Eq)]
pub enum RunPlan {
    /// No directory was named: show how to call the program, and touch
    /// nothing.
    Usage,
    /// Scan these root directories in order.
    Scan { roots: Vec<String> },
}

/// The plan for an argument vector whose first entry is the program's own
/// name: every later argument is a root to scan; none means usage.
pub fn plan_run(args: &Vec<String>) -> (r: RunPlan)
    ensures
        args@.len() <= 1 ==> r == RunPlan::Usage,
        args@.len() > 1 ==> (r matches RunPlan::Scan { roots } && roots@.len() == args@.len() - 1
            && (forall|i: int| 0 <= i < roots@.len() ==> (#[trigger] roots@[i])@ == args@[i + 1]@)),
{
    if args.len() <= 1 {
        RunPlan::Usage
    } else {
        let mut roots: Vec<String> = Vec::new();
        let mut i: usize = 1;
        while i < args.len()
            invariant
                1 <= i <= args@.len(),
                roots@.len() == i - 1,
                forall|j: int| 0 <= j < roots@.len() ==> (#[trigger] roots@[j])@ == args@[j + 1]@,
            decreases args@.len() - i,
        {
            roots.push(args[i].clone());
            i = i + 1;
        }
        RunPlan::Scan { roots }
    }
}

} // verus!
