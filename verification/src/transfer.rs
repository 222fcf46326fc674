//! What moving or copying a path comes to, decided from what lies at both
//! ends.

use crate::text::push_text;
use vstd::prelude::*;

verus! {

/// Whether the source stays where it is.
#[derive(Clone, Copy, Debug, PartialEq, Eq, Structural)]
pub enum TransferMode {
    Copy,
    Move,
}

/// What was found at a path.
#[derive(Clone, Copy, Debug, PartialEq, Eq, Structural)]
pub enum FileType {
    File,
    Dir,
    /// Nothing, or something that cannot be looked at.
    Unknown,
}

/// Why a transfer cannot be made.
#[derive(Clone, Copy, Debug, PartialEq, Eq, Structural)]
pub enum Refusal {
    /// Nothing lies at the source.
    NotFound,
    /// A file would take the place of a directory.
    FileOverDir,
    /// A directory would take the place of a file.
    DirOverFile,
}

/// The work that a transfer comes to.
#[derive(Clone, Copy, Debug, PartialEq, Eq, Structural)]
pub enum Transfer {
    /// Create the parent of the destination, then copy the file.
    CopyFile,
    /// Create the parent of the destination, then move the file.
    MoveFile,
    /// Create the destination, then copy what the directory holds.
    CopyDir,
    /// Create the destination, then move what the directory holds.
    MoveDir,
}

/// What a transfer comes to. A missing source is refused first; a file
/// never replaces a directory, nor a directory a file.
pub open spec fn spec_plan(source: FileType, target: FileType, mode: TransferMode) -> Result<
    Transfer,
    Refusal,
> {
    match source {
        FileType::Unknown => Err(Refusal::NotFound),
        FileType::File => if target == FileType::Dir {
            Err(Refusal::FileOverDir)
        } else if mode == TransferMode::Copy {
            Ok(Transfer::CopyFile)
        } else {
            Ok(Transfer::MoveFile)
        },
        FileType::Dir => if target == FileType::File {
            Err(Refusal::DirOverFile)
        } else if mode == TransferMode::Copy {
            Ok(Transfer::CopyDir)
        } else {
            Ok(Transfer::MoveDir)
        },
    }
}

/// Decides what a transfer comes to.
pub fn plan(source: FileType, target: FileType, mode: TransferMode) -> (result: Result<
    Transfer,
    Refusal,
>)
    ensures
        result == spec_plan(source, target, mode),
{
    match (source, target) {
        (FileType::Unknown, _) => Err(Refusal::NotFound),
        (FileType::File, FileType::Dir) => Err(Refusal::FileOverDir),
        (FileType::Dir, FileType::File) => Err(Refusal::DirOverFile),
        (FileType::File, _) => match mode {
            TransferMode::Copy => Ok(Transfer::CopyFile),
            TransferMode::Move => Ok(Transfer::MoveFile),
        },
        (FileType::Dir, _) => match mode {
            TransferMode::Copy => Ok(Transfer::CopyDir),
            TransferMode::Move => Ok(Transfer::MoveDir),
        },
    }
}

/// What the user is told of a refusal, with both paths as they are shown.
pub open spec fn refusal_text(refusal: Refusal, source: Seq<char>, target: Seq<char>) -> Seq<
    char,
> {
    match refusal {
        Refusal::NotFound => "Path '"@ + source + "' not found or user lacks permission"@,
        Refusal::FileOverDir => "Cannot to overwrite directory '"@ + target + "' with file '"@
            + source + "'"@,
        Refusal::DirOverFile => "Cannot to overwrite file '"@ + target + "' with directory '"@
            + source + "'"@,
    }
}

impl Refusal {
    /// Words the refusal for the user.
    pub fn message(&self, source: &str, target: &str) -> (text: String)
        ensures
            text@ == refusal_text(*self, source@, target@),
    {
        let mut text = String::new();
        match self {
            Refusal::NotFound => {
                push_text(&mut text, "Path '");
                push_text(&mut text, source);
                push_text(&mut text, "' not found or user lacks permission");
            },
            Refusal::FileOverDir => {
                push_text(&mut text, "Cannot to overwrite directory '");
                push_text(&mut text, target);
                push_text(&mut text, "' with file '");
                push_text(&mut text, source);
                push_text(&mut text, "'");
            },
            Refusal::DirOverFile => {
                push_text(&mut text, "Cannot to overwrite file '");
                push_text(&mut text, target);
                push_text(&mut text, "' with directory '");
                push_text(&mut text, source);
                push_text(&mut text, "'");
            },
        }
        assert(text@ =~= refusal_text(*self, source@, target@));
        text
    }
}

} // verus!
