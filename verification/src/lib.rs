pub mod address;
pub mod broker;
pub mod channel;
pub mod command;
pub mod cors;
pub mod decode;
pub mod dom;
pub mod drive;
pub mod extract;
pub mod fetch;
pub mod forms;
pub mod frames;
pub mod framing;
pub mod identity;
pub mod json;
pub mod markup;
pub mod opening;
pub mod passage;
pub mod pixels;
pub mod place;
pub mod policy;
pub mod raw;
pub mod receipt;
pub mod resources;
pub mod running;
pub mod scripts;
pub mod session;
pub mod text;
pub mod url;
pub mod wire;
