use vstd::prelude::*;

verus! {

/// The core settings: the menu program, its arguments, and how many entries the
/// history keeps.
#[derive(Debug, Clone)]
pub struct Core {
    pub launcher: String,
    pub launcher_args: Vec<String>,
    pub history_size: usize,
}

impl Core {
    /// Whether `self` holds the settings used where the configuration gives none.
    pub open spec fn is_default(self) -> bool {
        &&& self.launcher@ == "tofi"@
        &&& self.launcher_args@.len() == 2
        &&& self.launcher_args@[0]@ == "--fuzzy-match=true"@
        &&& self.launcher_args@[1]@ == "--prompt=Clapboard History: "@
        &&& self.history_size == 50
    }
}

impl Default for Core {
    fn default() -> (c: Core)
        ensures
            c.is_default(),
    {
        let mut launcher_args: Vec<String> = Vec::new();
        launcher_args.push("--fuzzy-match=true".to_owned());
        launcher_args.push("--prompt=Clapboard History: ".to_owned());
        Core { launcher: "tofi".to_owned(), launcher_args, history_size: 50 }
    }
}

} // verus!
