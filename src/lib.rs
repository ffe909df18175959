//! A process supervisor's verified core: environment vectors, the
//! generation-versioned settings store, the child-process state machine,
//! the decisions of the watcher loops and the DNS message handling.
pub mod envp;
pub mod dns;
pub mod env;
pub mod settings;
pub mod child;
pub mod supervisor;
pub mod http;
