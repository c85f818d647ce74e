//! The computational core of a 2D vector-graphics editor: the scene graph, the
//! drag and pen controllers, hit selection, undo history and a spatial index.
//!
//! Numbers are carried as binary64 bit patterns (see [`scalar`]); the crate
//! orders them but leaves arithmetic on them to its caller. Whatever needs
//! arithmetic (which leaves a point hits, where a dragged object goes) comes
//! in as values, and the crate decides what those values change.
//!
//! The modules, leaves first:
//! - [`scalar`], [`math`], [`ids`]: numbers, transforms, object names;
//! - [`scene`]: shapes, nodes and the scene graph;
//! - [`spatial`], [`hit_test`], [`renderer`]: queries and output over a scene;
//! - [`drag_state`], [`pen_state`]: the two interaction state machines;
//! - [`editor`]: the owner of it all, with selection and history;
//! - [`drag_laws`], [`history_laws`], [`selection_laws`], [`naming`]: what
//!   is proved of the editor's steps taken together.

pub mod scalar;
pub mod math;
pub mod ids;
pub mod scene;
pub mod spatial;
pub mod hit_test;
pub mod renderer;
pub mod drag_state;
pub mod pen_state;
pub mod editor;
pub mod drag_laws;
pub mod history_laws;
pub mod selection_laws;
pub mod naming;
