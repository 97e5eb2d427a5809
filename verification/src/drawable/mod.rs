pub mod string;
pub mod technique;
