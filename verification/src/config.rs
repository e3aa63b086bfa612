//! The sampler's start-up parameters.

use vstd::prelude::*;

verus! {

/// The four parameters the sampler is started with.
#[derive(Clone, Debug)]
pub struct Config {
    /// The host of the statsd collector.
    pub destination: String,
    /// What every metric's name begins with.
    pub namespace: String,
    /// A path on the filesystem whose free space is reported.
    pub filesystem: String,
    /// The network interface whose traffic is reported.
    pub interface: String,
}

impl Config {
    /// The parameters that a command line gives: the program's name, then
    /// exactly four words.
    pub open spec fn of_args(args: Seq<String>) -> Option<Config> {
        if args.len() == 5 {
            Some(
                Config {
                    destination: args[1],
                    namespace: args[2],
                    filesystem: args[3],
                    interface: args[4],
                },
            )
        } else {
            None
        }
    }

    /// Reads the parameters from the command line, the program's name first.
    /// A command line with fewer or more than four parameters gives none.
    pub fn from_args(args: &Vec<String>) -> (config: Option<Config>)
        ensures
            config == Config::of_args(args@),
    {
        if args.len() != 5 {
            return None;
        }
        Some(
            Config {
                destination: args[1].clone(),
                namespace: args[2].clone(),
                filesystem: args[3].clone(),
                interface: args[4].clone(),
            },
        )
    }
}

} // verus!
