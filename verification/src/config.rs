use vstd::prelude::*;

use crate::block::VDF_DIFFICULTY;

verus! {

/// How a node runs: whether it mines, the peers it starts with, its ports,
/// how long and with which command it reads temperatures, and the delay it
/// mines with.
#[derive(Clone, Debug)]
pub struct Config {
    pub mining: bool,
    pub peer: Vec<String>,
    pub api_port: u16,
    pub p2p_port: u16,
    pub beacon_timeout: u64,
    pub beacon_cmd: Vec<String>,
    pub vdf_difficulty: u64,
}

impl Default for Config {
    fn default() -> (r: Self)
        ensures
            r.vdf_difficulty == VDF_DIFFICULTY,
            r.beacon_cmd@.len() == 0,
            !r.mining,
            r.peer@.len() == 0,
            r.api_port == 8080,
            r.p2p_port == 8081,
            r.beacon_timeout == 10,
    {
        Config {
            vdf_difficulty: VDF_DIFFICULTY,
            beacon_cmd: Vec::new(),
            mining: false,
            peer: Vec::new(),
            api_port: 8080,
            p2p_port: 8081,
            beacon_timeout: 10,
        }
    }
}

} // verus!
