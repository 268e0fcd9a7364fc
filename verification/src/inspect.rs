//! Inspection of executables: what the header of a PE image says.
//!
//! The bytes of the image are parsed by the `goblin` crate. What is read
//! from the result and what is made of it is verified.

use crate::scoring::{Architecture, ExeMetadata};
use goblin::pe::PE;
use vstd::prelude::*;

verus! {

/// The subsystem of programs with a graphical user interface.
pub const SUBSYSTEM_WINDOWS_GUI: u16 = 2;

/// What is read from the headers of a PE image.
#[derive(Clone, Copy, Debug, PartialEq, Eq, Structural)]
pub struct PeHeader {
    /// The machine field of the COFF header.
    pub machine: u16,
    /// The subsystem field of the optional header, if the image has one.
    pub subsystem: Option<u16>,
    /// The size of the certificate table, if the optional header lists
    /// one.
    pub certificate_size: Option<u32>,
}

/// Why an executable could not be inspected.
#[derive(Clone, Copy, Debug, PartialEq, Eq, Structural)]
pub enum InspectError {
    /// The bytes are no PE image.
    Malformed,
    /// The image has no optional header.
    NoOptionalHeader,
}

/// The headers of the PE image `bytes`, as `goblin` parses them; `None` if
/// it does not accept the bytes as a PE image. They depend on the bytes
/// alone.
pub uninterp spec fn pe_header(bytes: Seq<u8>) -> Option<PeHeader>;

/// The error type of the `goblin` crate. Its values are handed on
/// unopened; nothing is claimed of them.
#[verifier::external_type_specification]
#[verifier::external_body]
pub struct ExGoblinError(goblin::error::Error);

/// Parses the headers of a PE image.
///
/// Trusted: the result is read off what `goblin::pe::PE::parse` returns
/// for the bytes: the machine of the COFF header, the subsystem of the
/// optional header, and the size of the certificate table among the data
/// directories. An error of the parser is handed on.
#[verifier::external_body]
fn read_header(bytes: &[u8]) -> (r: Result<PeHeader, goblin::error::Error>)
    ensures
        match r {
            Ok(h) => pe_header(bytes@) == Some(h),
            Err(_) => pe_header(bytes@) is None,
        },
{
    let pe = PE::parse(bytes)?;
    let optional = pe.header.optional_header;
    Ok(
        PeHeader {
            machine: pe.header.coff_header.machine,
            subsystem: optional.map(|h| h.windows_fields.subsystem),
            certificate_size: optional.and_then(
                |h| h.data_directories.get_certificate_table().map(|d| d.size),
            ),
        },
    )
}

/// The headers of the PE image `bytes`.
pub fn parse_header(bytes: &[u8]) -> (r: Result<PeHeader, InspectError>)
    ensures
        match pe_header(bytes@) {
            Some(h) => r == Ok::<PeHeader, InspectError>(h),
            None => r == Err::<PeHeader, InspectError>(InspectError::Malformed),
        },
{
    match read_header(bytes) {
        Ok(h) => Ok(h),
        Err(_) => Err(InspectError::Malformed),
    }
}

/// The machine that the image is built for, by its code.
pub open spec fn machine_of(header: Option<PeHeader>) -> Result<u16, InspectError> {
    match header {
        Some(h) => Ok(h.machine),
        None => Err(InspectError::Malformed),
    }
}

/// Whether the image runs in the GUI subsystem.
pub open spec fn gui_of(header: Option<PeHeader>) -> Result<bool, InspectError> {
    match header {
        Some(h) => match h.subsystem {
            Some(s) => Ok(s == SUBSYSTEM_WINDOWS_GUI),
            None => Err(InspectError::NoOptionalHeader),
        },
        None => Err(InspectError::Malformed),
    }
}

impl PeHeader {
    /// Whether the image runs in the GUI subsystem.
    pub open spec fn is_gui(self) -> Result<bool, InspectError> {
        gui_of(Some(self))
    }

    /// Whether the image lists a certificate table that is not empty.
    pub open spec fn is_signed(self) -> bool {
        self.certificate_size matches Some(n) && n > 0
    }

    /// Whether the image runs in the GUI subsystem.
    pub fn gui(&self) -> (r: Result<bool, InspectError>)
        ensures
            r == self.is_gui(),
    {
        match self.subsystem {
            Some(s) => Ok(s == SUBSYSTEM_WINDOWS_GUI),
            None => Err(InspectError::NoOptionalHeader),
        }
    }

    /// Whether the image lists a certificate table that is not empty.
    pub fn signed(&self) -> (r: bool)
        ensures
            r == self.is_signed(),
    {
        match self.certificate_size {
            Some(n) => n > 0,
            None => false,
        }
    }

    /// What the inspection of an image with this header reports, given
    /// its size and what was found of its resources.
    pub open spec fn metadata(self, size_bytes: u64, has_icon: bool, has_description: bool) -> Result<
        ExeMetadata,
        InspectError,
    > {
        match self.is_gui() {
            Ok(g) => Ok(
                ExeMetadata {
                    is_gui: g,
                    has_icon,
                    has_description,
                    has_signature: self.is_signed(),
                    architecture: Architecture::of_machine(self.machine),
                    size_bytes,
                },
            ),
            Err(e) => Err(e),
        }
    }
}

/// The machine code of the PE image `bytes`.
#[allow(non_snake_case)]
pub fn getProgramArch(bytes: &[u8]) -> (r: Result<u16, InspectError>)
    ensures
        r == machine_of(pe_header(bytes@)),
{
    match parse_header(bytes) {
        Ok(h) => Ok(h.machine),
        Err(e) => Err(e),
    }
}

/// Whether the PE image `bytes` runs in the GUI subsystem.
pub fn is_gui_program(bytes: &[u8]) -> (r: Result<bool, InspectError>)
    ensures
        r == gui_of(pe_header(bytes@)),
{
    match parse_header(bytes) {
        Ok(h) => h.gui(),
        Err(e) => Err(e),
    }
}

/// What the inspection of an image reports whose headers are `header`.
pub open spec fn inspection_of(
    header: Option<PeHeader>,
    size_bytes: u64,
    has_icon: bool,
    has_description: bool,
) -> Result<ExeMetadata, InspectError> {
    match header {
        Some(h) => h.metadata(size_bytes, has_icon, has_description),
        None => Err(InspectError::Malformed),
    }
}

/// Puts together what the inspection of an image reports: the headers
/// say whether it is a GUI program, what machine it is built for and
/// whether it is signed; its size and what was found of its resources
/// are given.
pub fn assemble(header: Result<PeHeader, InspectError>, size_bytes: u64, has_icon: bool, has_description: bool) -> (r:
    Result<ExeMetadata, InspectError>)
    ensures
        match header {
            Ok(h) => r == h.metadata(size_bytes, has_icon, has_description),
            Err(e) => r == Err::<ExeMetadata, InspectError>(e),
        },
{
    match header {
        Ok(h) => match h.gui() {
            Ok(g) => Ok(
                ExeMetadata {
                    is_gui: g,
                    has_icon,
                    has_description,
                    has_signature: h.signed(),
                    architecture: Architecture::from_machine(h.machine),
                    size_bytes,
                },
            ),
            Err(e) => Err(e),
        },
        Err(e) => Err(e),
    }
}

/// Inspects the executable whose content is `bytes`. `has_icon` and
/// `has_description` say what was found of its resources.
pub fn inspect(bytes: &[u8], has_icon: bool, has_description: bool) -> (r: Result<
    ExeMetadata,
    InspectError,
>)
    ensures
        r == inspection_of(pe_header(bytes@), bytes@.len() as u64, has_icon, has_description),
{
    let header = parse_header(bytes);
    assemble(header, bytes.len() as u64, has_icon, has_description)
}

} // verus!
