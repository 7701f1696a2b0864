//! focuswm: the logic of a task-focused Wayland desktop shell.

pub mod color;
pub mod desk;
pub mod egl;
pub mod engine;
pub mod event;
pub mod focus;
pub mod form;
pub mod frame;
pub mod frames;
pub mod geom;
pub mod github;
pub mod keymap;
pub mod keys;
pub mod launch;
pub mod model;
pub mod pinned;
pub mod protocol;
pub mod render;
pub mod report;
pub mod saved;
pub mod scan;
pub mod settings;
pub mod socket;
pub mod task;
pub mod tasklaws;
pub mod tasklist;
pub mod text;
pub mod textinput;
pub mod timelog;
pub mod toast;
