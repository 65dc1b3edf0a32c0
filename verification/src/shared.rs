//! What the owner of a vault sets.
use vstd::prelude::*;

verus! {

/// The passphrase.
pub const PASSWORD: [u8; 6] = [0x31, 0x31, 0x34, 0x35, 0x31, 0x34];

/// Bytes of the two keys that the embedded program rebuilds.
pub const KEY_LEN: usize = 64;

/// When the door opens, in seconds since the Unix epoch.
pub const OPEN_TIMESTAMP_UNIX_SECONDS: u64 = 1_755_000_000;

/// The servers that are asked for the time.
pub const NTP_SERVERS: [&'static str; 5] = [
    "ntp.aliyun.com",
    "ntp.myhuaweicloud.com",
    "time.cloudflare.com",
    "time.windows.com",
    "ntp.ntsc.ac.cn",
];

} // verus!
