//! The review UI's pure logic: row planning, navigation, sidebar geometry,
//! review tracking, fuzzy matching and the blame gutter.
pub mod blame;
pub mod fuzzy;
pub mod loader;
pub mod view;
pub mod review;
pub mod rows;
pub mod sidebar;
pub mod stream;
