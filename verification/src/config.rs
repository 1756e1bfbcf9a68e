//! The configuration of the RPC server.
use vstd::prelude::*;

use crate::address::{address, format_address};
use crate::text::decimal_value;

verus! {

/// What an RPC server is set up with. `ApiKind` tells the APIs apart that it can serve.
#[derive(Clone, Debug)]
pub struct ServerConfig<ApiKind> {
    pub port: u16,
    pub host: String,
    pub max_connections: u32,
    pub max_request_body_size: u32,
    pub apis: Vec<ApiKind>,
}

impl<ApiKind> ServerConfig<ApiKind> {
    /// The address that the server listens at.
    pub fn addr(&self) -> (r: String)
        ensures
            r@ == address(self.host@, self.port),
            r@.len() > self.host@.len() + 1,
            r@.take(self.host@.len() as int) == self.host@,
            r@[self.host@.len() as int] == ':',
            forall|i: int| self.host@.len() < i < r@.len() ==> '0' <= #[trigger] r@[i] <= '9',
            r@[self.host@.len() + 1int] == '0' ==> r@.len() == self.host@.len() + 2,
            decimal_value(r@.skip(self.host@.len() + 1int)) == self.port,
    {
        format_address(self.host.as_str(), self.port)
    }
}

} // verus!
