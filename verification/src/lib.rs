//! The storage layer of a small version-control system: the objects of a
//! content-addressed store and their byte formats, the staging area and its
//! file format, and the trees that a snapshot of the staging area is made of.
//!
//! The library computes and checks; it touches no file. What it hands out is
//! ready to be written, and what it takes in has been read by its caller.

pub mod bytes;
pub mod checkout;
pub mod error;
pub mod hashing;
pub mod index;
pub mod init;
pub mod objects;
pub mod status;
pub mod text;
pub mod write_tree;
pub mod zlib;

use vstd::prelude::*;

verus! {

/// Options shared by every command.
#[derive(Clone, Copy)]
pub struct GlobalOpts {
    /// When set, the repository metadata lives in `.git` and messages say "Git".
    pub git_mode: bool,
}

/// The metadata directory's name, as a sequence of characters.
pub open spec fn spec_git_dir_name(git_mode: bool) -> Seq<char> {
    if git_mode {
        ".git"@
    } else {
        ".grit"@
    }
}

/// The program's display name, as a sequence of characters.
pub open spec fn spec_program_name(git_mode: bool) -> Seq<char> {
    if git_mode {
        "Git"@
    } else {
        "Grit"@
    }
}

/// Name of the repository metadata directory.
pub fn git_dir_name(global_opts: GlobalOpts) -> (name: String)
    ensures
        name@ == spec_git_dir_name(global_opts.git_mode),
{
    if global_opts.git_mode {
        String::from_str(".git")
    } else {
        String::from_str(".grit")
    }
}

/// Name under which the program reports itself.
pub fn program_name(global_opts: GlobalOpts) -> (name: String)
    ensures
        name@ == spec_program_name(global_opts.git_mode),
{
    if global_opts.git_mode {
        String::from_str("Git")
    } else {
        String::from_str("Grit")
    }
}

} // verus!
