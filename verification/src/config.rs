use vstd::prelude::*;
use crate::chat::cfmt::{try_from_cfmt, from_cfmt_spec, Outcome};
use crate::chat::component::{Component, comp_view};

verus! {

/// The server's settings, with the message of the day already read into a component.
pub struct Config {
    /// The address the server listens on.
    pub server_ip: String,
    pub max_players: u16,
    pub port: u16,
    pub motd: String,
    pub motd_component: Component,
}

impl Config {
    /// Completes the settings read from the configuration file by reading the message of
    /// the day in the chat format; the format's error where it is malformed, `None` where its
    /// reader gives up without a message.
    pub fn try_new(server_ip: String, max_players: u16, port: u16, motd: String) -> (r: Option<Result<Config, String>>)
        ensures
            match from_cfmt_spec(motd@) {
                Outcome::Next(c) => r matches Some(Ok(cfg)) && cfg.server_ip@ == server_ip@ && cfg.max_players == max_players
                    && cfg.port == port && cfg.motd@ == motd@ && comp_view(cfg.motd_component) == c,
                Outcome::Error(m) => r matches Some(Err(e)) && e@ == m,
                Outcome::Panic => r is None,
            },
    {
        match try_from_cfmt(motd.as_str()) {
            Some(Ok(motd_component)) => Some(Ok(Config { server_ip, max_players, port, motd, motd_component })),
            Some(Err(e)) => Some(Err(e)),
            None => None,
        }
    }

    /// Completes the settings read from the configuration file by reading the message of
    /// the day in the chat format, or gives the format's error.
    pub fn new(server_ip: String, max_players: u16, port: u16, motd: String) -> (r: Result<Config, String>)
        requires
            !(from_cfmt_spec(motd@) is Panic),
        ensures
            match from_cfmt_spec(motd@) {
                Outcome::Next(c) => r matches Ok(cfg) && cfg.server_ip@ == server_ip@ && cfg.max_players == max_players
                    && cfg.port == port && cfg.motd@ == motd@ && comp_view(cfg.motd_component) == c,
                Outcome::Error(m) => r matches Err(e) && e@ == m,
                Outcome::Panic => false,
            },
    {
        match Self::try_new(server_ip, max_players, port, motd) {
            Some(r) => r,
            None => vstd::pervasive::unreached(),
        }
    }
}

} // verus!
