use vstd::prelude::*;

verus! {

/// The failure kinds that a lifecycle request can surface. Every error aborts
/// the whole request; the host discards any registry mutation attempted by a
/// request that ends in an error.
#[derive(Clone, Copy, Debug, PartialEq, Eq, Structural)]
pub enum Error {
    /// The registry storage is inconsistent with the request.
    FatalError,
    /// The caller is not the configured administrator.
    AdminError,
    /// The token's metadata explicitly forbids merging.
    NotMergableNft,
    /// The token's metadata explicitly forbids scheduling.
    NotTimeableNft,
    /// The caller does not own the referenced token.
    InvalidOwner,
    /// The metadata payload is malformed.
    DecodeError,
}

impl Error {
    /// The stable numeric code under which the host reports this error.
    pub fn user_code(&self) -> (code: u16)
        ensures
            code == self.spec_user_code(),
    {
        match self {
            Error::FatalError => 0,
            Error::AdminError => 1,
            Error::NotMergableNft => 2,
            Error::NotTimeableNft => 3,
            Error::InvalidOwner => 4,
            Error::DecodeError => 5,
        }
    }

    /// The numeric code of each error kind; distinct kinds map to distinct codes.
    pub open spec fn spec_user_code(self) -> u16 {
        match self {
            Error::FatalError => 0,
            Error::AdminError => 1,
            Error::NotMergableNft => 2,
            Error::NotTimeableNft => 3,
            Error::InvalidOwner => 4,
            Error::DecodeError => 5,
        }
    }
}

} // verus!
