//! Decision logic of the vitals panel applet.

pub mod text;
pub mod model;
pub mod keyed;
pub mod dbus;
pub mod app;
pub mod view;
pub mod icons;
pub mod properties;
