pub mod script_loader;
pub mod includes;
pub mod resolver;
