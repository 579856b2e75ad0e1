//! Text layout for the terminal interface: fitting text into columns by
//! display width, and the short labels the interface shows.
pub mod buttons;
pub mod components;
pub mod console;
pub mod helpers;
pub mod jobs;
pub mod layout;
pub mod pane;
pub mod panes;
pub mod status;
