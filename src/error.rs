use vstd::prelude::*;

verus! {

/// Every way in which resolving a target can fail.
#[derive(Debug, Clone, PartialEq, Eq)]
pub enum Error {
    /// The cluster API client failed (for instance on the initial read).
    WrapKube(String),
    /// The watch stream failed after its own retries gave up.
    WrapKubeWatcher(String),
    /// No declared port of a subset carries the requested name.
    NotFoundPort(String),
    /// A subset declares no port at all, so no first port can be taken.
    PortListEmpty,
    /// The locator names a scheme other than `kubernetes`.
    NotMatchSchema(String),
    /// The locator has no host.
    HostIsEmpty,
    /// One address could not be turned into a connection endpoint.
    InvalidAddress(String),
}

/// Mathematical model of [`Error`]: strings become character sequences.
pub enum ErrorModel {
    WrapKube(Seq<char>),
    WrapKubeWatcher(Seq<char>),
    NotFoundPort(Seq<char>),
    PortListEmpty,
    NotMatchSchema(Seq<char>),
    HostIsEmpty,
    InvalidAddress(Seq<char>),
}

impl View for Error {
    type V = ErrorModel;

    open spec fn view(&self) -> ErrorModel {
        match self {
            Error::WrapKube(s) => ErrorModel::WrapKube(s@),
            Error::WrapKubeWatcher(s) => ErrorModel::WrapKubeWatcher(s@),
            Error::NotFoundPort(s) => ErrorModel::NotFoundPort(s@),
            Error::PortListEmpty => ErrorModel::PortListEmpty,
            Error::NotMatchSchema(s) => ErrorModel::NotMatchSchema(s@),
            Error::HostIsEmpty => ErrorModel::HostIsEmpty,
            Error::InvalidAddress(s) => ErrorModel::InvalidAddress(s@),
        }
    }
}

} // verus!
