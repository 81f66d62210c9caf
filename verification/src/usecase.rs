//! Storing an entry that was changed.

use vstd::prelude::*;
use crate::entry::{Entry, Tag};
use crate::index::error::RepoError;
use crate::rating::Rating;

verus! {

/// What is wrong with a request.
#[derive(Clone, Copy, Debug, PartialEq, Eq, Structural)]
pub enum ParameterError {
    /// The bounding box is none.
    Bbox,
    /// The position is none.
    InvalidPosition,
    /// A number is none.
    InvalidNumber,
    /// The user name or the password is wrong.
    Credentials,
    /// There is a user of this name already.
    UserExists,
    /// The user has not confirmed the e-mail address yet.
    EmailNotConfirmed,
    /// The request needs a token that it does not have.
    Unauthorized,
}

/// Why a use of the repository failed.
#[derive(Clone, Copy, Debug, PartialEq, Eq, Structural)]
pub enum Error {
    /// The request is not as it has to be.
    Parameter(ParameterError),
    /// The repository reported an error.
    Repo(RepoError),
    /// A password could not be hashed.
    Pwhash,
}

/// The repository of entries, tags and ratings, as far as an entry that was
/// changed is stored in it.
pub trait Db {
    /// Makes sure that the repository knows the tag.
    fn create_tag_if_it_does_not_exist(&self, tag: &Tag) -> Result<(), RepoError>;

    /// Puts the entry in the place of the entry with the same identifier.
    fn update_entry(&self, entry: &Entry) -> Result<(), RepoError>;

    /// The ratings of the entry with the identifier.
    fn load_ratings_of_entry(&self, id: &str) -> Result<Vec<Rating>, RepoError>;
}

/// An entry that was checked and may be stored.
pub struct Storable(Entry);

impl Storable {
    /// The entry that may be stored.
    pub closed spec fn entry(&self) -> Entry {
        self.0
    }

    /// Holds an entry that was checked.
    pub fn new(entry: Entry) -> (s: Self)
        ensures
            s.entry() == entry,
    {
        Storable(entry)
    }
}

/// What becomes of an attempt to store an entry once the repository has
/// answered a step of it, the making of a tag or the update of the entry:
/// the attempt goes on, or it ends with the error of the repository.
pub fn after_step(outcome: Result<(), RepoError>) -> (r: Result<(), Error>)
    ensures
        match outcome {
            Ok(_) => r == Ok::<(), Error>(()),
            Err(error) => r == Err::<(), Error>(Error::Repo(error)),
        },
{
    match outcome {
        Ok(_) => Ok(()),
        Err(error) => Err(Error::Repo(error)),
    }
}

/// What becomes of an attempt to store an entry once its ratings were asked
/// for: the entry with its ratings, or the error of the repository.
pub fn stored_with_ratings(entry: Entry, loaded: Result<Vec<Rating>, RepoError>) -> (r: Result<
    (Entry, Vec<Rating>),
    Error,
>)
    ensures
        match loaded {
            Ok(ratings) => r == Ok::<(Entry, Vec<Rating>), Error>((entry, ratings)),
            Err(error) => r == Err::<(Entry, Vec<Rating>), Error>(Error::Repo(error)),
        },
{
    match loaded {
        Ok(ratings) => Ok((entry, ratings)),
        Err(error) => Err(Error::Repo(error)),
    }
}

/// Stores an entry that was changed: makes sure that the repository knows
/// each of its tags, in their order, puts the entry in the place of the
/// entry with the same identifier, and hands the entry out with its
/// ratings. The first error of the repository ends the attempt, and is the
/// error that is handed out: whether the entry is stored is up to the
/// repository for every entry.
pub fn store_updated_entry<D: Db>(db: &D, s: Storable) -> (r: Result<(Entry, Vec<Rating>), Error>)
    ensures
        r matches Ok(stored) ==> stored.0 == s.entry(),
        r matches Err(error) ==> error is Repo,
{
    let Storable(entry) = s;
    let mut i: usize = 0;
    while i < entry.tags.len()
        invariant
            i <= entry.tags.len(),
        decreases entry.tags.len() - i,
    {
        let tag = Tag { id: entry.tags[i].clone() };
        match after_step(db.create_tag_if_it_does_not_exist(&tag)) {
            Ok(_) => {},
            Err(error) => {
                return Err(error);
            },
        }
        i = i + 1;
    }
    match after_step(db.update_entry(&entry)) {
        Ok(_) => {},
        Err(error) => {
            return Err(error);
        },
    }
    let loaded = db.load_ratings_of_entry(entry.id.as_str());
    stored_with_ratings(entry, loaded)
}

} // verus!
