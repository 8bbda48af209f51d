//! A fake lock screen: the rules it keeps and the pixels it paints, apart from the
//! windows it shows them in.

pub mod app;
pub mod clock;
pub mod config;
pub mod cover;
pub mod fonts;
pub mod paint;
pub mod reading;
pub mod scale;
pub mod screen;
pub mod text;
