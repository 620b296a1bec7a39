use vstd::prelude::*;
use vstd::string::StringExecFns;

verus! {

/// A process to spawn: an executable path and its arguments.  Launching is
/// fire-and-forget: no result of the spawn is ever reported.
#[derive(Debug, Clone, PartialEq, Eq)]
pub struct LaunchCmd {
    pub exe: String,
    pub args: Vec<String>,
}

/// Decide whether launching goes ahead: only when the executable exists is
/// there anything to spawn; a missing executable is a silent no-op.
pub fn launch_plan(exe_exists: bool, exe_path: &str, args: Vec<String>) -> (r: Option<LaunchCmd>)
    ensures
        exe_exists ==> (r matches Some(c) && c.exe@ == exe_path@ && c.args == args),
        !exe_exists ==> r is None,
{
    if exe_exists {
        Some(LaunchCmd { exe: String::from_str(exe_path), args })
    } else {
        None
    }
}

} // verus!
