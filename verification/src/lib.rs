//! Wire protocol, device logic and desktop bridge of the lander001 desk robot.

pub mod behavior;
pub mod ble_server;
pub mod bluez;
pub mod button;
pub mod card;
pub mod cli;
pub mod codec;
pub mod command;
pub mod connect;
pub mod controller;
pub mod device;
pub mod frame;
pub mod gui;
pub mod led;
pub mod link;
pub mod mac_monitor;
pub mod message;
pub mod monitor;
pub mod pixels;
pub mod text;
pub mod uuids;
pub mod wire;
pub mod wrap;
