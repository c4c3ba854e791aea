use vstd::prelude::*;

verus! {

/// Why a configuration could not be read.
#[derive(Debug)]
pub enum ConfigError {
    /// A shortcut names a modifier other than `C` or `S`; holds that token.
    InvalidModifier(String),
    /// A shortcut's key is not exactly one character; holds the key text.
    InvalidKey(String),
    /// A command does not start with a known kind followed by a space; holds the command text.
    UnknownCommandKind(String),
}

/// What a [`ConfigError`] means: its kind and the text it holds.
pub enum ConfigErrorView {
    InvalidModifier(Seq<char>),
    InvalidKey(Seq<char>),
    UnknownCommandKind(Seq<char>),
}

impl View for ConfigError {
    type V = ConfigErrorView;

    open spec fn view(&self) -> ConfigErrorView {
        match self {
            ConfigError::InvalidModifier(s) => ConfigErrorView::InvalidModifier(s@),
            ConfigError::InvalidKey(s) => ConfigErrorView::InvalidKey(s@),
            ConfigError::UnknownCommandKind(s) => ConfigErrorView::UnknownCommandKind(s@),
        }
    }
}

/// The text that an error holds.
pub open spec fn error_text(e: ConfigErrorView) -> Seq<char> {
    match e {
        ConfigErrorView::InvalidModifier(s) => s,
        ConfigErrorView::InvalidKey(s) => s,
        ConfigErrorView::UnknownCommandKind(s) => s,
    }
}

impl ConfigError {
    /// A message for the user, which ends with the text that the error holds.
    pub fn message(&self) -> (r: String)
        ensures
            r@.len() >= error_text(self@).len(),
            r@.skip(r@.len() - error_text(self@).len()) == error_text(self@),
    {
        let mut m = match self {
            ConfigError::InvalidModifier(_) => String::from_str(
                "unexpected modifier (expected C for Ctrl or S for Shift): ",
            ),
            ConfigError::InvalidKey(_) => String::from_str(
                "expected the shortcut key to be exactly one character, got: ",
            ),
            ConfigError::UnknownCommandKind(_) => String::from_str(
                "unexpected command kind (expected \"bash <command>\") in: ",
            ),
        };
        let detail = match self {
            ConfigError::InvalidModifier(s) => s,
            ConfigError::InvalidKey(s) => s,
            ConfigError::UnknownCommandKind(s) => s,
        };
        m.append(detail.as_str());
        assert(m@.skip(m@.len() - error_text(self@).len()) =~= error_text(self@));
        m
    }
}

} // verus!
