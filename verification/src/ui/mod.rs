//! The interaction core: the host, its styles and inputs, and what commits
//! and platform events do to them.

pub mod answers;
pub mod assist;
pub mod hit;
pub mod keys;
pub mod laws;
pub mod model;
pub mod paint;
pub mod state;
pub mod visible;

pub use state::Ui;
