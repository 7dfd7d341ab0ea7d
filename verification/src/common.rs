//! The resource kinds the asset pipeline knows about.

use vstd::prelude::*;

verus! {

/// One kind of loadable game resource.
#[derive(Debug, Copy, Clone, Eq, PartialEq)]
pub enum ResourceType {
    Texture,
    Room,
    PassMap,
    RustScript,
}

impl ResourceType {
    /// The Rust path of the type a resource of this kind is stored as, for
    /// the generated resource tables to name.
    pub fn rust_type(&self) -> (r: &'static str)
        ensures
            *self is Texture ==> r@ == "crate::graphics::texture::Texture"@,
            *self is Room ==> r@ == "crate::overworld::room::PartialCreationParams"@,
            *self is RustScript ==> r@ == "crate::script::rust_script::RustScript"@,
            *self is PassMap ==> r@ == "crate::overworld::pass_map::BitmapPassMap"@,
    {
        match self {
            Self::Texture => "crate::graphics::texture::Texture",
            Self::Room => "crate::overworld::room::PartialCreationParams",
            Self::RustScript => "crate::script::rust_script::RustScript",
            Self::PassMap => "crate::overworld::pass_map::BitmapPassMap",
        }
    }
}

} // verus!
