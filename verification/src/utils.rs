pub mod locale;
pub mod size_utils;
pub mod string_utils;
