use vstd::prelude::*;

verus! {

/// How a slot runs: how many workers it starts, and the name it logs under.
#[derive(Clone, Debug)]
pub struct SlotConfig {
    pub workers: usize,
    pub name: String,
}

impl Default for SlotConfig {
    /// One worker, named `slot`.
    fn default() -> (config: Self)
        ensures
            config.workers == 1,
            config.name@ == "slot"@,
    {
        Self { workers: 1, name: "slot".to_owned() }
    }
}

impl SlotConfig {
    /// The same configuration with `workers` workers. A slot needs at least
    /// one worker.
    pub fn set_workers(self, workers: usize) -> (config: Self)
        requires
            workers > 0,
        ensures
            config.workers == workers,
            config.name == self.name,
    {
        let mut config = self;
        config.workers = workers;
        config
    }

    /// The same configuration under the name `name`.
    pub fn set_name(self, name: String) -> (config: Self)
        ensures
            config.workers == self.workers,
            config.name == name,
    {
        let mut config = self;
        config.name = name;
        config
    }
}

} // verus!
