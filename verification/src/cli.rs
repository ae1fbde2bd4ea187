use vstd::prelude::*;

verus! {

/// The command line: the device's MTU, if given, and the size of the rack's
/// channels.
#[derive(Debug)]
pub struct Cli {
    pub mtu: Option<u16>,
    pub channel_size: usize,
}

} // verus!
