use vstd::prelude::*;

verus! {

/// Settings of the persistent environment.
#[derive(Debug, Clone)]
pub struct Config {
    pub map_size: usize,
    pub max_dbs: u32,
    pub max_readers: u32,
}

impl Default for Config {
    /// One gibibyte of map, 32 databases and 126 readers.
    fn default() -> (r: Self)
        ensures
            r.map_size == 1024 * 1024 * 1024,
            r.max_dbs == 32,
            r.max_readers == 126,
    {
        Config { map_size: 1024 * 1024 * 1024, max_dbs: 32, max_readers: 126 }
    }
}

impl Config {
    /// The same settings with the map size replaced.
    pub fn with_map_size(self, bytes: usize) -> (r: Self)
        ensures
            r.map_size == bytes,
            r.max_dbs == self.max_dbs,
            r.max_readers == self.max_readers,
    {
        Config { map_size: bytes, ..self }
    }
}

} // verus!
