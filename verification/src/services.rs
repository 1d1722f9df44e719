//! The services that the programs talk to, as their configuration names them.

use crate::text::str_eq;
use vstd::prelude::*;

verus! {

/// The file that holds the configuration where none is named.
pub const DEFAULT_PATH: &'static str = "services.yaml";

/// The key of the credentials to use where none is named.
pub const DEFAULT_AUTH_KEY: &'static str = "default";

/// The configured services.
#[derive(Clone, Debug)]
pub struct Services {
    pub goldcrest: Option<GoldcrestService>,
}

/// Where the post service is, and the credentials for it, each under a key.
#[derive(Clone, Debug)]
pub struct GoldcrestService {
    pub scheme: String,
    pub host: String,
    pub port: u32,
    pub authentication: Vec<(String, GoldcrestAuthentication)>,
    pub request_timeout_seconds: Option<i64>,
    pub wait_timeout_seconds: Option<i64>,
}

/// One set of credentials.
#[derive(Clone, Debug)]
pub struct GoldcrestAuthentication {
    pub consumer_key: String,
    pub consumer_secret: String,
    pub access_token: String,
    pub token_secret: String,
}

/// The path of the configuration: the one named, or the default.
pub fn config_path<'a>(path: Option<&'a str>, default_path: &'a str) -> (r: &'a str)
    ensures
        r == match path {
            Some(p) => p,
            None => default_path,
        },
{
    match path {
        Some(p) => p,
        None => default_path,
    }
}

/// The index of the first entry of `entries` under `key`, or their number
/// where there is none.
pub open spec fn index_of_key(entries: Seq<(String, GoldcrestAuthentication)>, key: Seq<char>) -> int
    decreases entries.len(),
{
    if entries.len() == 0 || entries[0].0@ == key {
        0
    } else {
        1 + index_of_key(entries.drop_first(), key)
    }
}

impl GoldcrestService {
    /// The credentials under `key`, or under `DEFAULT_AUTH_KEY` where no key
    /// is given; none where there are no such credentials.
    pub fn credentials(&self, key: Option<&str>) -> (r: Option<&GoldcrestAuthentication>)
        ensures
            ({
                let wanted = match key {
                    Some(k) => k@,
                    None => DEFAULT_AUTH_KEY@,
                };
                let at = index_of_key(self.authentication@, wanted);
                if at < self.authentication@.len() {
                    r == Some(&self.authentication@[at].1)
                } else {
                    r is None
                }
            }),
    {
        let wanted = match key {
            Some(k) => k,
            None => DEFAULT_AUTH_KEY,
        };
        let mut i: usize = 0;
        assert(self.authentication@.skip(0) =~= self.authentication@);
        while i < self.authentication.len()
            invariant
                i <= self.authentication.len(),
                wanted@ == match key {
                    Some(k) => k@,
                    None => DEFAULT_AUTH_KEY@,
                },
                index_of_key(self.authentication@, wanted@) == i + index_of_key(
                    self.authentication@.skip(i as int),
                    wanted@,
                ),
            decreases self.authentication.len() - i,
        {
            proof {
                let t = self.authentication@.skip(i as int);
                assert(t[0] == self.authentication@[i as int]);
                assert(t.drop_first() =~= self.authentication@.skip(i + 1));
            }
            if str_eq(self.authentication[i].0.as_str(), wanted) {
                return Some(&self.authentication[i].1);
            }
            i = i + 1;
        }
        None
    }
}

} // verus!
