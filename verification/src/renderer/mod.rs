pub mod render_job;
pub mod reflection;
pub mod wgsl;
