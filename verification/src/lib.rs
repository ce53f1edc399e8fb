//! Verified core of a Minecraft server manager: the text formats it reads and
//! writes (metadata files, `.mcserver.conf`, `server.properties`, start
//! scripts, whitelists), the decisions its menus and supervisor make, and the
//! shell commands it hands to the system.

pub mod text;
pub mod dir;
pub mod config;
pub mod supervisor;
pub mod paths;
pub mod external;
pub mod console;
pub mod whitelist;
pub mod server;
pub mod ram;
pub mod network;
pub mod rcon;
pub mod download;
pub mod notes;
pub mod backup;
pub mod monitor;
pub mod retention;
