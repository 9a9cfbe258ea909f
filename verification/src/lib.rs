//! Verified runtime core of a retained-mode embedded GUI toolkit.
#![allow(unused_imports)]

pub mod actor;
pub mod anim;
pub mod application;
pub mod asset;
pub mod atomic;
pub mod batch;
pub mod bitmap_font;
pub mod catalog;
pub mod cmd;
pub mod cue;
pub mod direction;
pub mod draw;
pub mod edit;
pub mod endpoint;
pub mod event;
pub mod focus;
pub mod font;
pub mod fs;
pub mod icon_bitmap;
pub mod image;
pub mod interface;
pub mod renderer;
pub mod shadow;
pub mod stage;
pub mod style;
pub mod widget;
