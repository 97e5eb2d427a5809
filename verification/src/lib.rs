pub mod audio;
pub mod drawable;
pub mod menu_input;
pub mod renderer;
pub mod resources;
pub mod scenegraph;
pub mod session;
pub mod ui_region;
pub mod ui_state;
pub mod util;
