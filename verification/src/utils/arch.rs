//! Target architectures that packages are built for.

use vstd::prelude::*;

verus! {

/// A machine architecture a package can target.
#[derive(Debug, Clone, Copy, PartialEq, Eq, Structural)]
pub enum Architecture {
    X86_64,
    AARCH64,
}

/// The name an architecture goes by in file names, manifests and URLs.
pub open spec fn arch_name(a: Architecture) -> Seq<char> {
    match a {
        Architecture::X86_64 => seq!['x', '8', '6', '_', '6', '4'],
        Architecture::AARCH64 => seq!['a', 'a', 'r', 'c', 'h', '6', '4'],
    }
}

impl Architecture {
    /// The architecture's name, as its `Display` form writes it.
    pub fn name_chars(&self) -> (r: Vec<char>)
        ensures
            r@ == arch_name(*self),
    {
        match self {
            Architecture::X86_64 => vec!['x', '8', '6', '_', '6', '4'],
            Architecture::AARCH64 => vec!['a', 'a', 'r', 'c', 'h', '6', '4'],
        }
    }

    /// The architecture's name as a `String` (`"x86_64"` or `"aarch64"`).
    pub fn to_string(&self) -> (r: String)
        ensures
            r@ == arch_name(*self),
    {
        let v = self.name_chars();
        crate::text::string_of(&v)
    }
}

/// The architecture a Rust target architecture name stands for, if it is
/// one Parcel supports.
pub open spec fn arch_of_name(n: Seq<char>) -> Option<Architecture> {
    if n == arch_name(Architecture::X86_64) {
        Some(Architecture::X86_64)
    } else if n == arch_name(Architecture::AARCH64) {
        Some(Architecture::AARCH64)
    } else {
        None
    }
}

/// The architecture of the running host, from the name of its Rust target
/// architecture (`std::env::consts::ARCH`): `None` for a machine that is
/// neither x86_64 nor aarch64.
pub fn get_architecture(host: &str) -> (r: Option<Architecture>)
    ensures
        r == arch_of_name(host@),
        r matches Some(a) ==> arch_name(a) == host@,
{
    let h = crate::text::chars_of(host);
    let x = Architecture::X86_64.name_chars();
    let a = Architecture::AARCH64.name_chars();
    if crate::text::chars_eq(&h, &x) {
        Some(Architecture::X86_64)
    } else if crate::text::chars_eq(&h, &a) {
        Some(Architecture::AARCH64)
    } else {
        None
    }
}

} // verus!
