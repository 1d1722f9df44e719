//! How to reach the language service.

use crate::text::{decimal, push_char, push_decimal, push_str};
use crate::timestamp::Duration;
use vstd::prelude::*;

verus! {

/// The settings of a connection to the language service.
#[derive(Clone, Debug)]
pub struct ClientBuilder {
    pub par_scheme: String,
    pub par_host: String,
    pub par_port: u32,
    pub par_request_timeout: Duration,
    pub par_concurrency_limit: Option<usize>,
}

impl ClientBuilder {
    /// The settings of a connection to a service on this machine, at port
    /// 8000, over http, without a timeout and without a limit.
    pub fn new() -> (r: ClientBuilder)
        ensures
            r.par_scheme@ == "http"@,
            r.par_host@ == "localhost"@,
            r.par_port == 8000,
            r.par_request_timeout == (Duration { seconds: 0, nanos: 0 }),
            r.par_concurrency_limit is None,
    {
        ClientBuilder {
            par_scheme: "http".to_owned(),
            par_host: "localhost".to_owned(),
            par_port: 8000,
            par_request_timeout: Duration::zero(),
            par_concurrency_limit: None,
        }
    }

    pub fn scheme(&mut self, scheme: String) -> (r: &mut Self)
        ensures
            *r == (ClientBuilder { par_scheme: scheme, ..*old(self) }),
            *final(self) == *final(r),
    {
        self.par_scheme = scheme;
        self
    }

    pub fn host(&mut self, host: String) -> (r: &mut Self)
        ensures
            *r == (ClientBuilder { par_host: host, ..*old(self) }),
            *final(self) == *final(r),
    {
        self.par_host = host;
        self
    }

    pub fn port(&mut self, port: u32) -> (r: &mut Self)
        ensures
            *r == (ClientBuilder { par_port: port, ..*old(self) }),
            *final(self) == *final(r),
    {
        self.par_port = port;
        self
    }

    pub fn socket(&mut self, host: String, port: u32) -> (r: &mut Self)
        ensures
            *r == (ClientBuilder { par_host: host, par_port: port, ..*old(self) }),
            *final(self) == *final(r),
    {
        self.par_host = host;
        self.par_port = port;
        self
    }

    pub fn request_timeout(&mut self, timeout: Duration) -> (r: &mut Self)
        ensures
            *r == (ClientBuilder { par_request_timeout: timeout, ..*old(self) }),
            *final(self) == *final(r),
    {
        self.par_request_timeout = timeout;
        self
    }

    pub fn concurrency_limit(&mut self, limit: usize) -> (r: &mut Self)
        ensures
            *r == (ClientBuilder { par_concurrency_limit: Some(limit), ..*old(self) }),
            *final(self) == *final(r),
    {
        self.par_concurrency_limit = Some(limit);
        self
    }

    /// The address to connect to: the scheme, `://`, the host, `:` and the
    /// port.
    pub fn uri(&self) -> (r: String)
        ensures
            r@ == self.par_scheme@ + "://"@ + self.par_host@ + ":"@ + decimal(self.par_port as nat),
    {
        let mut uri = String::new();
        push_str(&mut uri, self.par_scheme.as_str());
        push_str(&mut uri, "://");
        push_str(&mut uri, self.par_host.as_str());
        push_char(&mut uri, ':');
        push_decimal(&mut uri, self.par_port as u64);
        proof {
            reveal_strlit(":");
            assert((self.par_scheme@ + "://"@ + self.par_host@).push(':') =~= self.par_scheme@
                + "://"@ + self.par_host@ + ":"@);
        }
        uri
    }

    /// The timeout of a request, where one is set: a time longer than none.
    pub fn timeout(&self) -> (r: Option<Duration>)
        ensures
            r == if self.par_request_timeout.positive() {
                Some(self.par_request_timeout)
            } else {
                None
            },
    {
        if self.par_request_timeout.is_positive() {
            Some(self.par_request_timeout)
        } else {
            None
        }
    }
}

} // verus!
