use vstd::prelude::*;

verus! {

/// The gateway's own settings: where it listens and where its route table lives.
#[derive(Clone, Debug)]
pub struct Configuration {
    pub service: Service,
    pub response: Response,
}

/// The gateway's identity and listening address.
#[derive(Clone, Debug)]
pub struct Service {
    pub name: String,
    pub version: String,
    pub host: String,
    pub port: String,
}

/// Where the route table file is.
#[derive(Clone, Debug)]
pub struct Response {
    pub config_file: String,
}

impl Configuration {
    /// The `host:port` address to listen on.
    pub fn bind_address(&self) -> (r: String)
        ensures
            r@ == self.service.host@ + seq![':'] + self.service.port@,
    {
        let mut a = self.service.host.clone();
        proof {
            reveal_strlit(":");
        }
        a.append(":");
        a.append(self.service.port.as_str());
        assert(a@ =~= self.service.host@ + seq![':'] + self.service.port@);
        a
    }
}

} // verus!
