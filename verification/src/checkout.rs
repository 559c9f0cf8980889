//! The decisions of a checkout: which object may stand where, and what is done
//! with it.

use vstd::prelude::*;
use crate::error::Error;
use crate::objects::{Blob, Commit, Object, Tree};

verus! {

/// Why a checkout stops.
#[derive(Clone, Copy, Debug, PartialEq, Eq, Structural)]
pub enum CheckoutError {
    /// The directory to check out into holds something.
    DestinationNotEmpty,
    /// The object that was asked for is not a commit.
    NotACommit,
    /// The store holds no object for the id that was asked for.
    NoSuchCommit,
    /// The commit's tree is an object of another kind.
    NotATree,
    /// An entry of a tree is neither a blob nor a tree.
    UnexpectedObject,
    /// The store could not give an object.
    Store(Error),
}

/// The message that goes with a reason.
pub open spec fn spec_checkout_message(error: CheckoutError) -> Seq<char> {
    match error {
        CheckoutError::DestinationNotEmpty => "Destination directory is not empty!"@,
        CheckoutError::NotACommit => "Requested object is not a commit"@,
        CheckoutError::NoSuchCommit => "Commit object does not exist"@,
        CheckoutError::NotATree => "Commit references a tree that is not actually a tree"@,
        CheckoutError::UnexpectedObject => "Unexpected object found in tree. Expecting only blobs or trees"@,
        CheckoutError::Store(inner) => crate::error::spec_message(inner),
    }
}

impl CheckoutError {
    /// The message for the user.
    pub fn message(&self) -> (text: String)
        ensures
            text@ == spec_checkout_message(*self),
    {
        match self {
            CheckoutError::DestinationNotEmpty => String::from_str(
                "Destination directory is not empty!",
            ),
            CheckoutError::NotACommit => String::from_str("Requested object is not a commit"),
            CheckoutError::NoSuchCommit => String::from_str("Commit object does not exist"),
            CheckoutError::NotATree => String::from_str(
                "Commit references a tree that is not actually a tree",
            ),
            CheckoutError::UnexpectedObject => String::from_str(
                "Unexpected object found in tree. Expecting only blobs or trees",
            ),
            CheckoutError::Store(inner) => inner.message(),
        }
    }
}

/// What is done with an entry of a tree.
pub enum CheckoutAction {
    /// The entry is a file: its content is written.
    WriteFile(Blob),
    /// The entry is a directory: nothing is written for it.
    Skip,
}

/// The commit to check out, from what the store holds for the id that was asked
/// for.
pub fn requested_commit(found: Result<Option<Object>, Error>) -> (commit: Result<Commit, CheckoutError>)
    ensures
        commit matches Ok(c) ==> found matches Ok(Some(Object::Commit(held))) && held == c,
        commit matches Err(e) ==> match found {
            Ok(Some(Object::Commit(_))) => false,
            Ok(Some(_)) => e == CheckoutError::NotACommit,
            Ok(None) => e == CheckoutError::NoSuchCommit,
            Err(inner) => e == CheckoutError::Store(inner),
        },
{
    match found {
        Ok(Some(Object::Commit(c))) => Ok(c),
        Ok(Some(_)) => Err(CheckoutError::NotACommit),
        Ok(None) => Err(CheckoutError::NoSuchCommit),
        Err(e) => Err(CheckoutError::Store(e)),
    }
}

/// The tree to check out, from what the store holds for the tree id of the
/// commit.
pub fn checkout_commit(found: Result<Object, Error>) -> (tree: Result<Tree, CheckoutError>)
    ensures
        tree matches Ok(t) ==> found matches Ok(Object::Tree(held)) && held == t,
        tree matches Err(e) ==> match found {
            Ok(Object::Tree(_)) => false,
            Ok(_) => e == CheckoutError::NotATree,
            Err(inner) => e == CheckoutError::Store(inner),
        },
{
    match found {
        Ok(Object::Tree(t)) => Ok(t),
        Ok(_) => Err(CheckoutError::NotATree),
        Err(e) => Err(CheckoutError::Store(e)),
    }
}

/// What is done with one entry of the tree, from what the store holds for the
/// entry's id.
pub fn checkout_tree(found: Result<Object, Error>) -> (action: Result<CheckoutAction, CheckoutError>)
    ensures
        action matches Ok(CheckoutAction::WriteFile(blob)) ==> found matches Ok(Object::Blob(held))
            && held == blob,
        action matches Ok(CheckoutAction::Skip) ==> found matches Ok(Object::Tree(_)),
        action matches Err(e) ==> match found {
            Ok(Object::Blob(_)) => false,
            Ok(Object::Tree(_)) => false,
            Ok(_) => e == CheckoutError::UnexpectedObject,
            Err(inner) => e == CheckoutError::Store(inner),
        },
{
    match found {
        Ok(Object::Blob(blob)) => Ok(CheckoutAction::WriteFile(blob)),
        Ok(Object::Tree(_)) => Ok(CheckoutAction::Skip),
        Ok(_) => Err(CheckoutError::UnexpectedObject),
        Err(e) => Err(CheckoutError::Store(e)),
    }
}

} // verus!
