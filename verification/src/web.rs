//! Connection-endpoint data shared by providers: a host, a port and a
//! full URL, with read access through the `URLInfo` capability.

use vstd::prelude::*;

verus! {

pub struct URLData {
    pub host: String,
    pub port: i32,
    pub url: String,
}

pub trait URLInfo {
    fn get_url(&self) -> &str;

    fn get_host(&self) -> &str;

    fn get_port(&self) -> i32;
}

impl URLInfo for URLData {
    fn get_url(&self) -> (r: &str)
        ensures
            r@ == self.url@,
    {
        self.url.as_str()
    }

    fn get_host(&self) -> (r: &str)
        ensures
            r@ == self.host@,
    {
        self.host.as_str()
    }

    fn get_port(&self) -> (r: i32)
        ensures
            r == self.port,
    {
        self.port
    }
}

} // verus!
