//! A task and time tracking model over a constrained markdown dialect.

pub mod controls;
pub mod error;
pub mod events;
pub mod home;
pub mod info_subtype;
pub mod log_view;
pub mod markdown;
pub mod nary_tree;
pub mod navigation_bar;
pub mod node;
pub mod paginator;
pub mod parser;
pub mod rollup;
pub mod round_trip;
pub mod session;
pub mod task_view;
pub mod tasks;
pub mod text;
pub mod time_stamp;
pub mod timer_view;
pub mod window;
