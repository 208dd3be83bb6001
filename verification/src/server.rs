use vstd::prelude::*;

verus! {

use crate::paths::SitePath;

/// How the serving layer is to be run: the port to listen on and the
/// directory compiled pages are served from.
pub struct ServerOpt {
    port: u16,
    src: SitePath,
}

impl ServerOpt {
    pub closed spec fn port_spec(&self) -> u16 {
        self.port
    }

    pub closed spec fn src_spec(&self) -> Seq<Seq<char>> {
        self.src@
    }

    pub fn new(port: u16, src: SitePath) -> (r: ServerOpt)
        ensures
            r.port_spec() == port,
            r.src_spec() == src@,
    {
        ServerOpt { port, src }
    }

    pub fn port(&self) -> (r: u16)
        ensures
            r == self.port_spec(),
    {
        self.port
    }

    pub fn src(&self) -> (r: SitePath)
        ensures
            r@ == self.src_spec(),
    {
        self.src.copy_path()
    }
}

impl Default for ServerOpt {
    fn default() -> (r: ServerOpt)
        ensures
            r.port_spec() == 8080,
            r.src_spec() == Seq::<Seq<char>>::empty(),
    {
        ServerOpt { port: 8080, src: SitePath::new() }
    }
}

/// The serving layer's handle: it only carries the options that the
/// caller's network front end runs with.
pub struct Server {
    options: ServerOpt,
}

impl Server {
    pub closed spec fn port_spec(&self) -> u16 {
        self.options.port_spec()
    }

    pub closed spec fn src_spec(&self) -> Seq<Seq<char>> {
        self.options.src_spec()
    }

    pub fn new(options: ServerOpt) -> (r: Server)
        ensures
            r.port_spec() == options.port_spec(),
            r.src_spec() == options.src_spec(),
    {
        Server { options }
    }

    pub fn options(&self) -> (r: &ServerOpt)
        ensures
            r.port_spec() == self.port_spec(),
            r.src_spec() == self.src_spec(),
    {
        &self.options
    }
}

impl Default for Server {
    fn default() -> (r: Server)
        ensures
            r.port_spec() == 8080,
            r.src_spec() == Seq::<Seq<char>>::empty(),
    {
        Server { options: ServerOpt::default() }
    }
}

} // verus!
