use vstd::prelude::*;

verus! {

/// The client end of the tunnel, which connects to the server's manager.
pub struct Client {
    /// The address that the client must connect to
    address: String,
}

impl View for Client {
    type V = Seq<char>;

    /// The address that the client connects to.
    closed spec fn view(&self) -> Seq<char> {
        self.address@
    }
}

impl Client {
    /// A client that connects to `addr`.
    pub fn new(addr: &str) -> (client: Client)
        ensures
            client@ == addr@,
    {
        Client { address: addr.to_owned() }
    }

    /// The address that the client connects to.
    pub fn address(&self) -> (addr: &str)
        ensures
            addr@ == self@,
    {
        self.address.as_str()
    }
}

} // verus!
