//! Twine engine core: the verified logic of a retained-mode GUI engine for small devices.
#![allow(unused_imports)]

pub mod time;
pub mod geom;
pub mod wake;
pub mod text;
pub mod ids;
pub mod flags;
pub mod widget;
pub mod error;
pub mod tree;
pub mod names;
pub mod event;
pub mod input;
pub mod scroll;
pub mod scroll_drag;
pub mod group;
pub mod gridnav;
pub mod handlers;
pub mod obj;
pub mod pointer;
pub mod config;
pub mod stats;
pub mod refresh;
pub mod metrics;
pub mod style_list;
pub mod scrollbar;
pub mod screen_anim;
pub mod transition;
pub mod layout;
pub mod flag_change;
pub mod ext_draw;
pub mod groups;
pub mod throw;
pub mod removal;
