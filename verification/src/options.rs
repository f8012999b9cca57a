use vstd::prelude::*;

verus! {

/// The editor's persisted preferences: the theme choice and the path of an
/// external tool. An unrelated key-value settings store; reading and
/// writing its on-disk file is the shell's business.
#[derive(Clone, Debug, PartialEq)]
pub struct Options {
    pub dark_theme: bool,
    pub executable_path: String,
}

impl Default for Options {
    /// Fresh preferences: dark theme on, no tool configured.
    fn default() -> (r: Options)
        ensures
            r.dark_theme == true,
            r.executable_path@ == Seq::<char>::empty(),
    {
        Options { dark_theme: true, executable_path: String::new() }
    }
}

/// The state of the options screen: the preferences being edited and
/// whether the screen asked to be closed.
#[derive(Debug)]
pub struct OptionsMenu {
    pub options: Options,
    pub to_close: bool,
}

impl OptionsMenu {
    /// Opens the options screen over the given preferences; it does not ask
    /// to close until a button says so.
    pub fn new(options: Options) -> (r: OptionsMenu)
        ensures
            r.options == options,
            r.to_close == false,
    {
        OptionsMenu { options, to_close: false }
    }
}

} // verus!
