//! Whether a Repository Store may be opened.

use vstd::prelude::*;

use crate::association::{Error, Refusal};
use crate::migrations::{APPLICATION_ID, MAX_KNOWN_VERSION};

verus! {

/// Why a store was not opened.
#[derive(Debug)]
pub enum OpenError {
    /// Git could not locate the repository; what it reported.
    DiscoveryFailed(String),
    /// There is no store here yet.
    StoreMissing,
    /// A database stands at the store's path but its application ID is another
    /// one; a foreign database is not touched.
    NotTicketStore,
    /// The store records a higher schema version than is known.
    FromFutureVersion,
    /// The repository's association with the store is refused.
    Association(Error),
    /// What the database reported.
    Sqlite(String),
}

/// Why a store was not opened, texts as characters.
pub enum OpenFault {
    DiscoveryFailed(Seq<char>),
    StoreMissing,
    NotTicketStore,
    FromFutureVersion,
    Association(Refusal),
    Sqlite(Seq<char>),
}

impl View for OpenError {
    type V = OpenFault;

    open spec fn view(&self) -> OpenFault {
        match *self {
            OpenError::DiscoveryFailed(text) => OpenFault::DiscoveryFailed(text@),
            OpenError::StoreMissing => OpenFault::StoreMissing,
            OpenError::NotTicketStore => OpenFault::NotTicketStore,
            OpenError::FromFutureVersion => OpenFault::FromFutureVersion,
            OpenError::Association(error) => OpenFault::Association(error@),
            OpenError::Sqlite(text) => OpenFault::Sqlite(text@),
        }
    }
}

impl OpenFault {
    /// What the user reads.
    pub open spec fn message(self) -> Seq<char> {
        match self {
            OpenFault::DiscoveryFailed(text) => text,
            OpenFault::StoreMissing => "Repository Store not initialized; run 'tk init'"@,
            OpenFault::NotTicketStore => "Repository Store is not a tk Repository Store"@,
            OpenFault::FromFutureVersion => "Repository Store was created by a newer tk version"@,
            OpenFault::Association(refusal) => refusal.message(),
            OpenFault::Sqlite(text) => text,
        }
    }
}

impl OpenError {
    /// What the user reads.
    pub fn message(&self) -> (r: String)
        ensures
            r@ == self@.message(),
    {
        match self {
            OpenError::DiscoveryFailed(text) => text.as_str().to_owned(),
            OpenError::StoreMissing => "Repository Store not initialized; run 'tk init'".to_owned(),
            OpenError::NotTicketStore => "Repository Store is not a tk Repository Store".to_owned(),
            OpenError::FromFutureVersion =>
                "Repository Store was created by a newer tk version".to_owned(),
            OpenError::Association(error) => error.message(),
            OpenError::Sqlite(text) => text.as_str().to_owned(),
        }
    }
}

/// An answer of the database, a failed one with its report as characters.
pub open spec fn answer<T>(read: Result<T, String>) -> Result<T, Seq<char>> {
    match read {
        Ok(value) => Ok(value),
        Err(text) => Err(text@),
    }
}

/// What is read of a database before it is trusted with anything.
pub open spec fn admitted(
    application_id: Result<i64, Seq<char>>,
    version: Result<i64, Seq<char>>,
) -> Result<(), OpenFault> {
    if application_id is Err {
        Err(OpenFault::Sqlite(application_id->Err_0))
    } else if application_id->Ok_0 != APPLICATION_ID {
        Err(OpenFault::NotTicketStore)
    } else if version is Err {
        Err(OpenFault::Sqlite(version->Err_0))
    } else if version->Ok_0 > MAX_KNOWN_VERSION {
        Err(OpenFault::FromFutureVersion)
    } else {
        Ok(())
    }
}

/// Whether the database that carries this application ID and this schema
/// version is one to work with.
pub(crate) fn let_in(application_id: &Result<i64, String>, version: &Result<i64, String>) -> (r: Result<
    (),
    OpenError,
>)
    ensures
        match r {
            Ok(()) => admitted(answer(*application_id), answer(*version)) is Ok,
            Err(error) => admitted(answer(*application_id), answer(*version)) == Err::<(), OpenFault>(
                error@,
            ),
        },
{
    match application_id {
        Err(text) => {
            return Err(OpenError::Sqlite(text.as_str().to_owned()));
        },
        Ok(id) => {
            if *id != APPLICATION_ID as i64 {
                return Err(OpenError::NotTicketStore);
            }
        },
    }
    match version {
        Err(text) => Err(OpenError::Sqlite(text.as_str().to_owned())),
        Ok(version) => {
            if *version > MAX_KNOWN_VERSION as i64 {
                Err(OpenError::FromFutureVersion)
            } else {
                Ok(())
            }
        },
    }
}

/// Whether the store of the Git repository at hand opens: it was located, its
/// database file is there, and the application ID and the schema version are
/// this program's. They are looked at before anything is written, so that a
/// foreign file is refused untouched.
pub fn open_existing(
    present: Result<bool, String>,
    application_id: &Result<i64, String>,
    version: &Result<i64, String>,
) -> (r: Result<(), OpenError>)
    ensures
        match present {
            Err(text) => r == Err::<(), OpenError>(OpenError::DiscoveryFailed(text)),
            Ok(false) => r == Err::<(), OpenError>(OpenError::StoreMissing),
            Ok(true) => match r {
                Ok(()) => admitted(answer(*application_id), answer(*version)) is Ok,
                Err(error) => admitted(answer(*application_id), answer(*version)) == Err::<
                    (),
                    OpenFault,
                >(error@),
            },
        },
{
    match present {
        Err(text) => Err(OpenError::DiscoveryFailed(text)),
        Ok(false) => Err(OpenError::StoreMissing),
        Ok(true) => let_in(application_id, version),
    }
}

} // verus!
