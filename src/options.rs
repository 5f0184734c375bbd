use vstd::prelude::*;

verus! {

/// Switches that govern how the entries of each layer are written.
#[derive(Debug, Clone, Copy, PartialEq, Eq, Structural)]
pub struct UnpackOptions {
    preserve_permissions: bool,
    unpack_xattrs: bool,
}

impl UnpackOptions {
    /// Whether archived mode bits and ownership are applied verbatim.
    pub closed spec fn spec_preserve_permissions(self) -> bool {
        self.preserve_permissions
    }

    /// Whether archived extended attributes are restored.
    pub closed spec fn spec_unpack_xattrs(self) -> bool {
        self.unpack_xattrs
    }

    /// The neutral options: both switches off.
    pub fn new() -> (r: Self)
        ensures
            !r.spec_preserve_permissions(),
            !r.spec_unpack_xattrs(),
    {
        UnpackOptions { preserve_permissions: false, unpack_xattrs: false }
    }

    /// Sets whether permissions are preserved, keeping the other switch.
    pub fn preserve_permissions(self, val: bool) -> (r: Self)
        ensures
            r.spec_preserve_permissions() == val,
            r.spec_unpack_xattrs() == self.spec_unpack_xattrs(),
    {
        UnpackOptions { preserve_permissions: val, ..self }
    }

    /// Sets whether extended attributes are unpacked, keeping the other switch.
    pub fn unpack_xattrs(self, val: bool) -> (r: Self)
        ensures
            r.spec_unpack_xattrs() == val,
            r.spec_preserve_permissions() == self.spec_preserve_permissions(),
    {
        UnpackOptions { unpack_xattrs: val, ..self }
    }

    /// Reads the permission switch.
    pub fn permissions_preserved(&self) -> (r: bool)
        ensures
            r == self.spec_preserve_permissions(),
    {
        self.preserve_permissions
    }

    /// Reads the extended-attribute switch.
    pub fn xattrs_unpacked(&self) -> (r: bool)
        ensures
            r == self.spec_unpack_xattrs(),
    {
        self.unpack_xattrs
    }
}

impl Default for UnpackOptions {
    fn default() -> (r: Self)
        ensures
            !r.spec_preserve_permissions(),
            !r.spec_unpack_xattrs(),
    {
        UnpackOptions::new()
    }
}

} // verus!
