//! The logic of OMO Switch, which manages the model settings of OpenCode and
//! oh-my-openagent: where their files are, which providers and models are configured,
//! the edits made to the configuration, and which versions are installed.
pub mod agents;
pub mod install;
pub mod json;
pub mod models;
pub mod order;
pub mod paths;
pub mod process;
pub mod providers;
pub mod text;
pub mod versions;
