//! The older, plain address cache: one file per hostname holding just an
//! address in text form.
//!
//! Only the bookkeeping lives here: where a hostname's file sits. The
//! caller reads and writes the files themselves, decoding their bytes
//! with the address codec.

use vstd::prelude::*;

use vstd::string::StringExecFns;

verus! {

/// The file a hostname's entry lives in: the directory, a slash, the
/// hostname.
pub fn cache_file_path(dir: &str, hostname: &str) -> (r: String)
    ensures
        r@ == dir@ + seq!['/'] + hostname@,
{
    proof {
        reveal_strlit("/");
        assert(("/")@ =~= seq!['/']);
    }
    let mut s = dir.to_owned();
    s.append("/");
    s.append(hostname);
    s
}

/// A directory of address files, one per hostname.
#[derive(Debug, Clone)]
pub struct IpCache {
    /// The base directory.
    pub dir: String,
}

impl IpCache {
    /// A cache over the given directory.
    pub fn new(dir: String) -> (r: IpCache)
        ensures
            r.dir@ == dir@,
    {
        IpCache { dir }
    }

    /// The file holding a hostname's entry.
    pub fn cache_file(&self, hostname: &str) -> (r: String)
        ensures
            r@ == self.dir@ + seq!['/'] + hostname@,
    {
        cache_file_path(self.dir.as_str(), hostname)
    }
}

} // verus!
