pub mod clash;
pub mod codec;
pub mod debug;
pub mod desktop;
pub mod color_picker;
pub mod editor;
pub mod export;
pub mod export_buffer;
pub mod keyed;
pub mod pixels;
pub mod port_owners;
pub mod probe;
pub mod projects;
pub mod sidecar;
pub mod text;
pub mod tools;
pub mod unsupported_platform;
pub mod window;
