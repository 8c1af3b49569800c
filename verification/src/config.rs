use vstd::prelude::*;

verus! {

/// The resolved settings the service runs with.
#[derive(Debug)]
pub struct Config {
    pub redis_url: String,
    pub redis_bitmap_name: String,
    pub number_of_checkboxes: usize,
    pub server_port: u16,
}

} // verus!
