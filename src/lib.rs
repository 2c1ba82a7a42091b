//! Fibonacci numbers and the golden-spiral picture built from them.
//!
//! - `fibonacci`: the numbers, by recursion, with a cache, and by iteration,
//!   and a membership test.
//! - `validation`: turns typed text into an index within a bound.
//! - `layout`: places one square per term in a spiral and centres it in a view.
//! - `render`: the drawing decisions that do not need a toolkit.
//! - `display`: the texts shown beside the picture.
//! - `app`: the state behind the interactive front end.

pub mod app;
pub mod display;
pub mod fibonacci;
pub mod layout;
pub mod render;
pub mod text;
pub mod validation;
