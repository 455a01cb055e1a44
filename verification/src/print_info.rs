//! What the command-line tool prints about where it runs.
use vstd::prelude::*;
use vstd::string::StringExecFns;

verus! {

/// The current directory and the path of the running program.
#[derive(Clone, Debug)]
pub struct PrintInfo {
    pub curdir: String,
    pub curexe: String,
}

impl PrintInfo {
    /// The text the tool displays: `current dir: <curdir> \ncurrent exe: <curexe>`.
    pub fn to_display_string(&self) -> (r: String)
        ensures
            r@ == "current dir: "@ + self.curdir@ + " \ncurrent exe: "@ + self.curexe@,
    {
        let mut text = String::new();
        text.append("current dir: ");
        text.append(self.curdir.as_str());
        text.append(" \ncurrent exe: ");
        text.append(self.curexe.as_str());
        text
    }
}

} // verus!
