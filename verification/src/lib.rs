//! Attribute-cascade engine for a retained UI tree.
//!
//! Raw textual node attributes are parsed into strongly typed style and
//! layout records (sizes, colors, shadows, fonts, cursors, references), with
//! inheritance from the parent's resolved state and an equality-based change
//! signal that feeds an external dirty-tracking sink.
//!
//! Fractional values (sizes, paddings, scroll offsets, font metrics) are
//! carried as exact decimal fixed-point numbers (`fixed::Fixed`, a signed
//! count of millionths), so parsing, rendering and change detection are all
//! plain, verified integer arithmetic.

pub mod color;
pub mod cursor;
pub mod fixed;
pub mod font;
pub mod node;
pub mod numbers;
pub mod refs;
pub mod scroll;
pub mod size;
pub mod style;
pub mod text;
