pub mod fs;
pub mod kernel;
pub mod users;
pub mod e5fs;
pub mod virtfs;
pub mod binfs;
pub mod devfs;
