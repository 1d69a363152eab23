//! Host-function registry.
//!
//! A program may one day call named host functions; the registry maps a name
//! to a callback supplied by the embedder. The engine consults the registry
//! through the `VM` that owns it but the current instruction set never
//! invokes an entry, so the callback type is left to the embedder as a type
//! parameter and the registry is populated once, before a run begins.
use vstd::prelude::*;

verus! {

/// A named-callback registry: each entry pairs a host-function name with an
/// embedder-supplied callback value of type `H`.
pub struct StdLib<H> {
    entries: Vec<(String, H)>,
}

impl<H> StdLib<H> {
    /// The names of the registered host functions, in registration order.
    pub closed spec fn names(&self) -> Seq<Seq<char>> {
        self.entries@.map_values(|e: (String, H)| e.0@)
    }

    /// An empty registry.
    pub fn empty() -> (r: StdLib<H>)
        ensures
            r.names() == Seq::<Seq<char>>::empty(),
    {
        let r = StdLib { entries: Vec::new() };
        proof {
            assert(r.names() =~= Seq::<Seq<char>>::empty());
        }
        r
    }

    /// Registers a host function under `name`.
    pub fn register(&mut self, name: String, callback: H)
        ensures
            final(self).names() == old(self).names().push(name@),
    {
        let ghost old_names = self.names();
        self.entries.push((name, callback));
        proof {
            assert(self.names() =~= old_names.push(name@));
        }
    }
}

/// The default host library: empty. The instruction set never calls a host
/// function, so nothing is registered; future opcodes would populate this.
pub fn make_stdlib<H>() -> (r: StdLib<H>)
    ensures
        r.names() == Seq::<Seq<char>>::empty(),
{
    StdLib::empty()
}

} // verus!
