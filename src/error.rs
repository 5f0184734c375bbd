use vstd::prelude::*;

verus! {

/// `std::io::Error`, carried through unchanged from the decoders.
#[verifier::external_type_specification]
#[verifier::external_body]
pub struct ExIoError(std::io::Error);

/// Why a plan could not be carried through.
#[derive(Debug)]
pub enum RenderError {
    /// The target is not the absolute path of an existing directory.
    WrongTargetPath(Vec<u8>),
    /// Decoding a layer or reading its entries failed.
    Io(std::io::Error),
}

impl RenderError {
    /// A short description of the error.
    pub fn message(&self) -> (r: String)
        ensures
            r@ == (match self {
                RenderError::WrongTargetPath(_) => "wrong target path: must be absolute path to existing directory"@,
                RenderError::Io(_) => "io error"@,
            }),
    {
        match self {
            RenderError::WrongTargetPath(_) => {
                String::from_str("wrong target path: must be absolute path to existing directory")
            },
            RenderError::Io(_) => {
                String::from_str("io error")
            },
        }
    }
}

} // verus!
