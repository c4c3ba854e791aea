pub mod config;
pub mod dispatch;
pub mod error;
pub mod opt;
pub mod shortcut;
pub mod text;
pub mod writer;

pub use config::{default_config, Bindings, Command, CommandView, Config, RawConfig};
pub use dispatch::{
    decide, looks_like_exit, should_insert, Action, KeyPress, KEYSYM_BACKSPACE, KEYSYM_ESCAPE,
};
pub use error::{ConfigError, ConfigErrorView};
pub use opt::Opt;
pub use shortcut::{KeyboardShortcut, ModKeys};
pub use writer::{utf8_bytes, Writer};
