pub mod address;
pub mod frame;
pub mod mapping;
pub mod window;
pub mod resolver;
pub mod publish;
pub mod capture;
