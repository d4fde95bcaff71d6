//! The view layer of an e-reader: the tree of views, how events travel
//! through it, and how rendering requests are queued, grouped and merged.
pub mod canvas;
pub mod colour;
pub mod context;
pub mod framebuffer;
pub mod fxmap;
pub mod geom;
pub mod input;
pub mod startup;
pub mod view;
