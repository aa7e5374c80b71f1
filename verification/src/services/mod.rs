pub mod scanner;
pub mod disk;
