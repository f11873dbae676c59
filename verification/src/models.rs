pub mod content_model;
pub mod error;
pub mod run_options;
pub mod text_size_box;
pub mod v_data;
