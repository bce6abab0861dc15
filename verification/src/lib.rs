//! Layout, navigation, theming and text-rendering logic of a terminal
//! dashboard, with the behaviour of each piece stated as a contract.

pub mod app;
pub mod config;
pub mod digits;
pub mod launch;
pub mod layout;
pub mod nav;
pub mod strs;
pub mod tally;
pub mod widget;
pub mod theme;
