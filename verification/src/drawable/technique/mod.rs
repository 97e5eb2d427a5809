pub mod skybox;
