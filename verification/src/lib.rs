//! tuai: the logic of a terminal chat client for OpenAI-compatible providers.
//!
//! Text measurement and wrapping, slash commands, the configuration model,
//! the streaming protocol decoder, the editing state of the input box, the
//! forms and the command palette, and the Markdown renderer.
use vstd::prelude::*;

pub mod util;
pub mod model;
pub mod commands;
pub mod config;
pub mod json;
pub mod llm;
pub mod input;
pub mod state;
pub mod paste;
pub mod app;
pub mod style;
pub mod highlight;
pub mod markdown;
pub mod chat;
pub mod control;
pub mod view;
pub mod models;
pub mod proxy;
pub mod layout;

verus! {

} // verus!
