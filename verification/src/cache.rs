use vstd::prelude::*;

verus! {

/// Number of key bytes a cache entry holds.
pub const MAX_KEY_LEN: usize = 64;

/// Number of value bytes a cache entry holds.
pub const MAX_VALUE_SIZE: usize = 64;

/// The key under which a value is stored in the cache map.
#[derive(Clone, Copy, Debug)]
pub struct CacheKey {
    pub data: [u8; MAX_KEY_LEN],
    pub len: u16,
}

impl Default for CacheKey {
    /// An all-zero key of length zero.
    fn default() -> (key: Self)
        ensures
            key.data@ == Seq::new(MAX_KEY_LEN as nat, |i: int| 0u8),
            key.len == 0,
    {
        let key = CacheKey { data: [0u8; MAX_KEY_LEN], len: 0 };
        assert(key.data@ =~= Seq::new(MAX_KEY_LEN as nat, |i: int| 0u8));
        key
    }
}

/// A stored value, with its memcached flags and time to live.
#[derive(Clone, Copy, Debug)]
pub struct CacheValue {
    pub flags: u32,
    pub time_to_live: u32,
    pub len: u16,
    pub padding: u16,
    pub data: [u8; MAX_VALUE_SIZE],
}

impl Default for CacheValue {
    /// An all-zero value: no flags, no time to live, length zero.
    fn default() -> (value: Self)
        ensures
            value.flags == 0,
            value.time_to_live == 0,
            value.len == 0,
            value.padding == 0,
            value.data@ == Seq::new(MAX_VALUE_SIZE as nat, |i: int| 0u8),
    {
        let value = CacheValue {
            flags: 0,
            time_to_live: 0,
            len: 0,
            padding: 0,
            data: [0u8; MAX_VALUE_SIZE],
        };
        assert(value.data@ =~= Seq::new(MAX_VALUE_SIZE as nat, |i: int| 0u8));
        value
    }
}

} // verus!
