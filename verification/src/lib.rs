//! Verified core of the Bridge Scrims Discord bot: the parsing, text building and
//! decision logic that the bot's event handlers rely on.

pub mod text;
pub mod matching;
pub mod parse_durations;
pub mod hypixel;
pub mod roles;
pub mod clock;
pub mod model;
pub mod cooldown;
pub mod channels;
pub mod teams;
pub mod custom_id;
pub mod screenshare;
pub mod embed;
pub mod reaction;
pub mod messages;
pub mod bans;
pub mod commands;
pub mod freeze;
pub mod council;
pub mod interaction;
pub mod ping;
pub mod registry;
pub mod prefab;
