//! Source languages and back-ends, and how file extensions select them.
use vstd::prelude::*;
use crate::location::str_equal;

verus! {

/// The language of the input.
#[derive(Debug, Clone, Copy, PartialEq, Eq, Structural)]
pub enum Source {
    BrainFuck,
    Assembly,
}

/// What the compiler produces.
#[derive(Debug, Clone, Copy, PartialEq, Eq, Structural)]
pub enum Backend {
    BrainFuck,
    C,
    C16Bit,
    C32Bit,
    Exe,
    Exe16Bit,
    Exe32Bit,
    Run,
    Run16Bit,
    Run32Bit,
}

/// The family of a back-end: BF text, C, an executable, or a run.
pub open spec fn family(b: Backend) -> int {
    match b {
        Backend::BrainFuck => 0,
        Backend::C | Backend::C16Bit | Backend::C32Bit => 1,
        Backend::Exe | Backend::Exe16Bit | Backend::Exe32Bit => 2,
        Backend::Run | Backend::Run16Bit | Backend::Run32Bit => 3,
    }
}

impl Source {
    /// Two sources agree when they are the same language.
    pub fn is_compatible_with(&self, other: &Source) -> (r: bool)
        ensures
            r == (*self == *other),
    {
        *self == *other
    }

    /// `b` and `bf` name BF; `basm` and `asm` name assembly.
    pub fn from_file_extension(extension: &str) -> (r: Option<Self>)
        ensures
            r == (if extension@ == "b"@ || extension@ == "bf"@ {
                Some(Source::BrainFuck)
            } else if extension@ == "basm"@ || extension@ == "asm"@ {
                Some(Source::Assembly)
            } else {
                None
            }),
    {
        if str_equal(extension, "b") || str_equal(extension, "bf") {
            Some(Source::BrainFuck)
        } else if str_equal(extension, "basm") || str_equal(extension, "asm") {
            Some(Source::Assembly)
        } else {
            None
        }
    }
}

impl Backend {
    /// The cell width, in bytes, that the back-end targets.
    pub fn bytes(&self) -> (r: u8)
        ensures
            r == (match *self {
                Backend::C16Bit | Backend::Exe16Bit | Backend::Run16Bit => 2u8,
                Backend::C32Bit | Backend::Exe32Bit | Backend::Run32Bit => 4u8,
                _ => 1u8,
            }),
    {
        match self {
            Backend::C16Bit | Backend::Exe16Bit | Backend::Run16Bit => 2,
            Backend::C32Bit | Backend::Exe32Bit | Backend::Run32Bit => 4,
            _ => 1,
        }
    }

    /// Two back-ends agree when they are of the same family, whatever their
    /// cell widths.
    pub fn is_compatible_with(&self, other: &Backend) -> (r: bool)
        ensures
            r == (family(*self) == family(*other)),
    {
        if *self == *other {
            return true;
        }
        match (self, other) {
            (
                Backend::C | Backend::C16Bit | Backend::C32Bit,
                Backend::C | Backend::C16Bit | Backend::C32Bit,
            ) => true,
            (
                Backend::Exe | Backend::Exe16Bit | Backend::Exe32Bit,
                Backend::Exe | Backend::Exe16Bit | Backend::Exe32Bit,
            ) => true,
            (
                Backend::Run | Backend::Run16Bit | Backend::Run32Bit,
                Backend::Run | Backend::Run16Bit | Backend::Run32Bit,
            ) => true,
            (Backend::BrainFuck, Backend::BrainFuck) => true,
            _ => false,
        }
    }

    /// `b` and `bf` name BF, `c` names C, and no extension or `exe` names an
    /// executable.
    pub fn from_file_extension(extension: &str) -> (r: Option<Self>)
        ensures
            r == (if extension@ == "b"@ || extension@ == "bf"@ {
                Some(Backend::BrainFuck)
            } else if extension@ == "c"@ {
                Some(Backend::C)
            } else if extension@ == ""@ || extension@ == "exe"@ {
                Some(Backend::Exe)
            } else {
                None
            }),
    {
        if str_equal(extension, "b") || str_equal(extension, "bf") {
            Some(Backend::BrainFuck)
        } else if str_equal(extension, "c") {
            Some(Backend::C)
        } else if str_equal(extension, "") || str_equal(extension, "exe") {
            Some(Backend::Exe)
        } else {
            None
        }
    }

    /// The file extension of the back-end's output; empty for the sized
    /// variants and for runs.
    pub fn to_file_extension(&self) -> (r: &'static str)
        ensures
            r@ == (match *self {
                Backend::BrainFuck => "bf"@,
                Backend::C => "c"@,
                Backend::Exe => "exe"@,
                _ => ""@,
            }),
    {
        match self {
            Backend::BrainFuck => "bf",
            Backend::C => "c",
            Backend::Exe => "exe",
            _ => "",
        }
    }
}

} // verus!
