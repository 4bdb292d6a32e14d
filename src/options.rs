use vstd::prelude::*;

verus! {

/// Options that can be set either through the config file, or cli flags.
#[derive(Clone, Copy, Debug, PartialEq, Eq, Structural)]
pub struct Options {
    /// Allow plugins to use a more compatible font type.
    pub simplified_ui: bool,
}

impl Default for Options {
    fn default() -> (r: Options)
        ensures
            r.simplified_ui == false,
    {
        Options { simplified_ui: false }
    }
}

impl Options {
    /// The options read from a config file, or the defaults when there were none.
    pub fn from_yaml(from_yaml: Option<Options>) -> (r: Options)
        ensures
            from_yaml is Some ==> r == from_yaml->Some_0,
            from_yaml is None ==> r.simplified_ui == false,
    {
        if let Some(opts) = from_yaml {
            opts
        } else {
            Options { simplified_ui: false }
        }
    }
}

} // verus!
