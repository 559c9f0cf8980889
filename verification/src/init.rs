//! What a repository holds when it is made.

use vstd::prelude::*;

verus! {

/// The text of the configuration file of a new repository.
pub open spec fn spec_default_config() -> Seq<char> {
    "[core]\n\trepositoryformatversion = 0\n\tfilemode = true\n\tbare = false\n\tlogallrefupdates = true\n"@
}

/// The text of the description file of a new repository.
pub open spec fn spec_default_description() -> Seq<char> {
    "Unnamed repository; edit this file 'description' to name the repository.\n"@
}

/// The text of the exclude file of a new repository.
pub open spec fn spec_default_exclude() -> Seq<char> {
    "# git ls-files --others --exclude-from=.git/info/exclude\n# Lines that start with '#' are comments.\n# For a project mostly in C, the following would be a good set of\n# exclude patterns (uncomment them if you want to use them):\n# *.[oa]\n# *~\n"@
}

/// What `HEAD` holds in a new repository: a reference to the branch `master`.
pub open spec fn spec_default_head() -> Seq<char> {
    "ref: refs/heads/master\n"@
}

/// The configuration file of a new repository.
pub fn repo_default_config() -> (text: String)
    ensures
        text@ == spec_default_config(),
{
    String::from_str(
        "[core]\n\trepositoryformatversion = 0\n\tfilemode = true\n\tbare = false\n\tlogallrefupdates = true\n",
    )
}

/// The description file of a new repository.
pub fn repo_default_description() -> (text: String)
    ensures
        text@ == spec_default_description(),
{
    String::from_str("Unnamed repository; edit this file 'description' to name the repository.\n")
}

/// The exclude file of a new repository.
pub fn repo_default_exclude() -> (text: String)
    ensures
        text@ == spec_default_exclude(),
{
    String::from_str(
        "# git ls-files --others --exclude-from=.git/info/exclude\n# Lines that start with '#' are comments.\n# For a project mostly in C, the following would be a good set of\n# exclude patterns (uncomment them if you want to use them):\n# *.[oa]\n# *~\n",
    )
}

/// What `HEAD` holds in a new repository.
pub fn repo_default_head() -> (text: String)
    ensures
        text@ == spec_default_head(),
{
    String::from_str("ref: refs/heads/master\n")
}

/// The directories of a new repository, relative to its metadata directory.
pub fn repo_directories() -> (dirs: Vec<String>)
    ensures
        dirs@.len() == 7,
        dirs@[0]@ == "branches"@,
        dirs@[1]@ == "hooks"@,
        dirs@[2]@ == "info"@,
        dirs@[3]@ == "objects/info"@,
        dirs@[4]@ == "objects/pack"@,
        dirs@[5]@ == "refs/heads"@,
        dirs@[6]@ == "refs/tags"@,
{
    let mut dirs: Vec<String> = Vec::new();
    dirs.push(String::from_str("branches"));
    dirs.push(String::from_str("hooks"));
    dirs.push(String::from_str("info"));
    dirs.push(String::from_str("objects/info"));
    dirs.push(String::from_str("objects/pack"));
    dirs.push(String::from_str("refs/heads"));
    dirs.push(String::from_str("refs/tags"));
    dirs
}

} // verus!
