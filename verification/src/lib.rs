use vstd::prelude::*;

pub mod text;
pub mod wql;
pub mod nav;
pub mod events;
pub mod codeview;
pub mod query;
pub mod compare;
pub mod process;
pub mod explorer;
pub mod saved;
pub mod table;
pub mod network;
pub mod settings;
pub mod machines;
pub mod search;
pub mod diffview;
pub mod app;
