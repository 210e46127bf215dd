//! The failures of the controller, by layer.
//!
//! Each error type has a view in which its texts are sequences of
//! characters; contracts speak of errors through these views.

use vstd::prelude::*;

verus! {

/// A failure of the privilege check or of the packet filter.
#[derive(Debug, PartialEq, Eq)]
pub enum FirewallError {
    /// The process lacks the administrative network capability.
    NetAdminRequired,
    /// The packet filter's program could not be found on this host.
    NftNotFound,
    /// The packet filter ran and refused a request; the text names the
    /// operation that was refused.
    NftFailed(String),
    /// The packet filter's program could not be started for another reason;
    /// the text is the system's diagnostic.
    Io(String),
}

/// A failure of the tunnel.
#[derive(Debug, PartialEq, Eq)]
pub enum TunError {
    /// The tunnel could not be brought up; the text says why.
    TunFailed(String),
    /// No running tunnel was found to notify.
    NotRunning,
    /// The system refused an operation on the tunnel; the text is its
    /// diagnostic.
    Io(String),
}

/// Any failure that ends an invocation of the controller.
#[derive(Debug, PartialEq, Eq)]
pub enum OwlError {
    /// There is no configuration file at the given path.
    ConfigNotFound(String),
    /// The configuration file could not be read.
    ConfigReadFailed(String),
    /// The configuration file is malformed.
    ConfigParseFailed(String),
    /// The privilege check or the packet filter failed.
    Firewall(FirewallError),
    /// The tunnel failed.
    Tun(TunError),
    /// Anything else; the text is the diagnostic.
    Other(String),
}

/// [`FirewallError`] with its texts as character sequences.
pub ghost enum FirewallErrorView {
    NetAdminRequired,
    NftNotFound,
    NftFailed(Seq<char>),
    Io(Seq<char>),
}

/// [`TunError`] with its texts as character sequences.
pub ghost enum TunErrorView {
    TunFailed(Seq<char>),
    NotRunning,
    Io(Seq<char>),
}

/// [`OwlError`] with its texts as character sequences.
pub ghost enum OwlErrorView {
    ConfigNotFound(Seq<char>),
    ConfigReadFailed(Seq<char>),
    ConfigParseFailed(Seq<char>),
    Firewall(FirewallErrorView),
    Tun(TunErrorView),
    Other(Seq<char>),
}

impl View for FirewallError {
    type V = FirewallErrorView;

    open spec fn view(&self) -> FirewallErrorView {
        match *self {
            FirewallError::NetAdminRequired => FirewallErrorView::NetAdminRequired,
            FirewallError::NftNotFound => FirewallErrorView::NftNotFound,
            FirewallError::NftFailed(tag) => FirewallErrorView::NftFailed(tag@),
            FirewallError::Io(detail) => FirewallErrorView::Io(detail@),
        }
    }
}

impl View for TunError {
    type V = TunErrorView;

    open spec fn view(&self) -> TunErrorView {
        match *self {
            TunError::TunFailed(detail) => TunErrorView::TunFailed(detail@),
            TunError::NotRunning => TunErrorView::NotRunning,
            TunError::Io(detail) => TunErrorView::Io(detail@),
        }
    }
}

impl View for OwlError {
    type V = OwlErrorView;

    open spec fn view(&self) -> OwlErrorView {
        match *self {
            OwlError::ConfigNotFound(path) => OwlErrorView::ConfigNotFound(path@),
            OwlError::ConfigReadFailed(detail) => OwlErrorView::ConfigReadFailed(detail@),
            OwlError::ConfigParseFailed(detail) => OwlErrorView::ConfigParseFailed(detail@),
            OwlError::Firewall(inner) => OwlErrorView::Firewall(inner@),
            OwlError::Tun(inner) => OwlErrorView::Tun(inner@),
            OwlError::Other(detail) => OwlErrorView::Other(detail@),
        }
    }
}

impl Clone for FirewallError {
    fn clone(&self) -> (copy: FirewallError)
        ensures
            copy@ == self@,
    {
        match self {
            FirewallError::NetAdminRequired => FirewallError::NetAdminRequired,
            FirewallError::NftNotFound => FirewallError::NftNotFound,
            FirewallError::NftFailed(tag) => FirewallError::NftFailed(tag.clone()),
            FirewallError::Io(detail) => FirewallError::Io(detail.clone()),
        }
    }
}

impl Clone for TunError {
    fn clone(&self) -> (copy: TunError)
        ensures
            copy@ == self@,
    {
        match self {
            TunError::TunFailed(detail) => TunError::TunFailed(detail.clone()),
            TunError::NotRunning => TunError::NotRunning,
            TunError::Io(detail) => TunError::Io(detail.clone()),
        }
    }
}

impl Clone for OwlError {
    fn clone(&self) -> (copy: OwlError)
        ensures
            copy@ == self@,
    {
        match self {
            OwlError::ConfigNotFound(path) => OwlError::ConfigNotFound(path.clone()),
            OwlError::ConfigReadFailed(detail) => OwlError::ConfigReadFailed(detail.clone()),
            OwlError::ConfigParseFailed(detail) => OwlError::ConfigParseFailed(detail.clone()),
            OwlError::Firewall(inner) => OwlError::Firewall(inner.clone()),
            OwlError::Tun(inner) => OwlError::Tun(inner.clone()),
            OwlError::Other(detail) => OwlError::Other(detail.clone()),
        }
    }
}

impl From<FirewallError> for OwlError {
    fn from(inner: FirewallError) -> (wrapped: OwlError) {
        OwlError::Firewall(inner)
    }
}

impl vstd::std_specs::convert::FromSpecImpl<FirewallError> for OwlError {
    open spec fn obeys_from_spec() -> bool {
        true
    }

    open spec fn from_spec(inner: FirewallError) -> OwlError {
        OwlError::Firewall(inner)
    }
}

impl From<TunError> for OwlError {
    fn from(inner: TunError) -> (wrapped: OwlError) {
        OwlError::Tun(inner)
    }
}

impl vstd::std_specs::convert::FromSpecImpl<TunError> for OwlError {
    open spec fn obeys_from_spec() -> bool {
        true
    }

    open spec fn from_spec(inner: TunError) -> OwlError {
        OwlError::Tun(inner)
    }
}

} // verus!
