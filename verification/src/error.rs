//! Errors of the client, and the structured form of an error reply.

use vstd::prelude::*;

verus! {

/// Kind of an error reply, taken from the token before the first space.
#[derive(Debug, PartialEq, Eq)]
pub enum RedisErrorKind {
    /// `ERR`: no more specific kind is given.
    Generic,
    /// `MOVED`: the slot now lives on another node.
    Moved { hash_slot: u16, address: (Vec<u8>, u16) },
    /// `ASK`: the slot is being migrated to another node.
    Ask { hash_slot: u16, address: (Vec<u8>, u16) },
    /// Any other token, kept as it came.
    Other(Vec<u8>),
}

/// Mathematical form of a [`RedisErrorKind`].
pub enum RedisErrorKindView {
    Generic,
    Moved { hash_slot: u16, host: Seq<u8>, port: u16 },
    Ask { hash_slot: u16, host: Seq<u8>, port: u16 },
    Other(Seq<u8>),
}

impl View for RedisErrorKind {
    type V = RedisErrorKindView;

    open spec fn view(&self) -> RedisErrorKindView {
        match *self {
            RedisErrorKind::Generic => RedisErrorKindView::Generic,
            RedisErrorKind::Moved { hash_slot, address } => RedisErrorKindView::Moved {
                hash_slot,
                host: address.0@,
                port: address.1,
            },
            RedisErrorKind::Ask { hash_slot, address } => RedisErrorKindView::Ask {
                hash_slot,
                host: address.0@,
                port: address.1,
            },
            RedisErrorKind::Other(name) => RedisErrorKindView::Other(name@),
        }
    }
}

/// An error reply of the server: its kind and the text after the kind.
#[derive(Debug, PartialEq, Eq)]
pub struct RedisError {
    pub kind: RedisErrorKind,
    pub description: Vec<u8>,
}

/// Mathematical form of a [`RedisError`].
pub struct RedisErrorView {
    pub kind: RedisErrorKindView,
    pub description: Seq<u8>,
}

impl View for RedisError {
    type V = RedisErrorView;

    open spec fn view(&self) -> RedisErrorView {
        RedisErrorView { kind: self.kind@, description: self.description@ }
    }
}

/// Why a request has to be sent again.
#[derive(Debug, PartialEq, Eq)]
pub enum RetryReason {
    /// The slot has moved for good: the shard table is stale.
    Moved { hash_slot: u16, address: (Vec<u8>, u16) },
    /// The slot is in transit: ask the given node once.
    Ask { hash_slot: u16, address: (Vec<u8>, u16) },
}

/// Mathematical form of a [`RetryReason`].
pub enum RetryReasonView {
    Moved { hash_slot: u16, host: Seq<u8>, port: u16 },
    Ask { hash_slot: u16, host: Seq<u8>, port: u16 },
}

impl View for RetryReason {
    type V = RetryReasonView;

    open spec fn view(&self) -> RetryReasonView {
        match *self {
            RetryReason::Moved { hash_slot, address } => RetryReasonView::Moved {
                hash_slot,
                host: address.0@,
                port: address.1,
            },
            RetryReason::Ask { hash_slot, address } => RetryReasonView::Ask {
                hash_slot,
                host: address.0@,
                port: address.1,
            },
        }
    }
}

/// What a malformed frame was malformed in.
#[derive(Clone, Copy, Debug, PartialEq, Eq, Structural)]
pub enum ProtocolFault {
    /// The first byte of a frame names no known type.
    UnknownType(u8),
    /// The body of an integer frame is no decimal 64-bit number.
    MalformedInteger,
    /// A length or a count is no decimal number, or is below -1.
    MalformedSize,
    /// The bytes of a sized frame are not closed by CRLF.
    MissingTerminator,
    /// The body of a boolean frame is neither `t` nor `f`.
    MalformedBoolean,
    /// A nil frame with a body.
    MalformedNil,
    /// A `MOVED` or `ASK` error without `<slot> <host>:<port>`.
    MalformedRedirect,
    /// A verbatim string shorter than its four-byte prefix.
    MalformedVerbatim,
}

/// What a reply could not be read as.
#[derive(Clone, Copy, Debug, PartialEq, Eq, Structural)]
pub enum ParseTarget {
    Text,
    Integer,
    Sequence,
    Dictionary,
    Pair,
    CommandInfo,
    CommandTip,
    RequestPolicy,
    ResponsePolicy,
    KeySpecification,
    BeginSearch,
    FindKeys,
    CommandDoc,
    CommandDocFlag,
    HistoricalNote,
    CommandArgument,
    CommandArgumentType,
    ArgumentFlag,
    ClusterShard,
    ClusterNode,
    GraphHeader,
    GraphQueryStatistics,
    GraphSlowlogResult,
    GraphResultRow,
    GraphResultSet,
    GraphCommand,
}

/// Errors that the client reports.
#[derive(Debug, PartialEq, Eq)]
pub enum Error {
    /// The bytes received are no RESP frame. Fatal to the connection.
    Protocol(ProtocolFault),
    /// The catalog does not know the command with this name.
    UnknownCommand(Vec<u8>),
    /// The keys of the command with this name hash to different slots.
    CrossSlot(Vec<u8>),
    /// The command cannot be routed in cluster mode.
    NotSupported,
    /// The keys of a command cannot be found from its catalog entry.
    KeyExtraction,
    /// A sub-reply has a shape that cannot be aggregated.
    UnexpectedReply,
    /// The shard table reported by the cluster cannot be used.
    ClusterMisconfiguration,
    /// A reply cannot be read as the type asked for.
    Parse(ParseTarget),
    /// An error reply of the server.
    Redis(RedisError),
    /// The request met redirections and has to be sent again.
    Retry(RetryReasons),
    /// The transaction was aborted by the server.
    Aborted,
    /// The connection closed while the request was in flight.
    Disconnected,
}

/// Mathematical form of an [`Error`].
pub enum ErrorView {
    Protocol(ProtocolFault),
    UnknownCommand(Seq<u8>),
    CrossSlot(Seq<u8>),
    NotSupported,
    KeyExtraction,
    UnexpectedReply,
    ClusterMisconfiguration,
    Parse(ParseTarget),
    Redis(RedisErrorView),
    Retry(Seq<RetryReasonView>),
    Aborted,
    Disconnected,
}

impl View for Error {
    type V = ErrorView;

    open spec fn view(&self) -> ErrorView {
        match *self {
            Error::Protocol(fault) => ErrorView::Protocol(fault),
            Error::UnknownCommand(name) => ErrorView::UnknownCommand(name@),
            Error::CrossSlot(name) => ErrorView::CrossSlot(name@),
            Error::NotSupported => ErrorView::NotSupported,
            Error::KeyExtraction => ErrorView::KeyExtraction,
            Error::UnexpectedReply => ErrorView::UnexpectedReply,
            Error::ClusterMisconfiguration => ErrorView::ClusterMisconfiguration,
            Error::Parse(target) => ErrorView::Parse(target),
            Error::Redis(e) => ErrorView::Redis(e@),
            Error::Retry(reasons) => ErrorView::Retry(retry_views(reasons@)),
            Error::Aborted => ErrorView::Aborted,
            Error::Disconnected => ErrorView::Disconnected,
        }
    }
}

/// The views of a sequence of retry reasons.
pub open spec fn retry_views(reasons: Seq<RetryReason>) -> Seq<RetryReasonView> {
    reasons.map_values(|r: RetryReason| r@)
}

/// The reasons for a retry, kept inline where there is one: a
/// `smallvec::SmallVec` of reasons. Nothing is known of what is inside but
/// what `retry_reason_list` names.
#[verifier::external_body]
#[derive(Debug, PartialEq, Eq)]
pub struct RetryReasons {
    inner: smallvec::SmallVec<[RetryReason; 1]>,
}

/// The reasons that the `SmallVec` of the list holds, in order.
pub uninterp spec fn retry_reason_list(reasons: RetryReasons) -> Seq<RetryReason>;

impl View for RetryReasons {
    type V = Seq<RetryReason>;

    open spec fn view(&self) -> Seq<RetryReason> {
        retry_reason_list(*self)
    }
}

/// `SmallVec::new`: a list that holds nothing.
#[verifier::external_body]
pub(crate) fn retry_reason_list_new() -> (r: RetryReasons)
    ensures
        retry_reason_list(r) == Seq::<RetryReason>::empty(),
{
    RetryReasons { inner: smallvec::SmallVec::new() }
}

/// `SmallVec::push`: the list holds one more reason, at its end.
#[verifier::external_body]
pub(crate) fn retry_reason_list_push(reasons: &mut RetryReasons, reason: RetryReason)
    ensures
        retry_reason_list(*final(reasons)) == retry_reason_list(*old(reasons)).push(reason),
{
    reasons.inner.push(reason)
}

/// `SmallVec::len`: the number of reasons that the list holds.
#[verifier::external_body]
pub(crate) fn retry_reason_list_len(reasons: &RetryReasons) -> (n: usize)
    ensures
        n == retry_reason_list(*reasons).len(),
{
    reasons.inner.len()
}

/// `Index::index` of `SmallVec`: the reason at `index`. It panics where the
/// list holds no such reason.
#[verifier::external_body]
pub(crate) fn retry_reason_list_get(reasons: &RetryReasons, index: usize) -> (reason: &RetryReason)
    requires
        index < retry_reason_list(*reasons).len(),
    ensures
        *reason == retry_reason_list(*reasons)[index as int],
{
    &reasons.inner[index]
}

impl RetryReasons {
    /// A list that holds nothing.
    pub fn new() -> (r: RetryReasons)
        ensures
            r@ == Seq::<RetryReason>::empty(),
    {
        retry_reason_list_new()
    }

    /// Appends a reason.
    pub fn push(&mut self, reason: RetryReason)
        ensures
            final(self)@ == old(self)@.push(reason),
    {
        retry_reason_list_push(self, reason)
    }

    /// The number of reasons.
    pub fn len(&self) -> (n: usize)
        ensures
            n == self@.len(),
    {
        retry_reason_list_len(self)
    }

    /// The reason at `index`.
    pub fn at(&self, index: usize) -> (reason: &RetryReason)
        requires
            index < self@.len(),
        ensures
            *reason == self@[index as int],
    {
        retry_reason_list_get(self, index)
    }

    /// The list that holds copies of the given reasons, in order.
    pub fn from_vec(reasons: &Vec<RetryReason>) -> (r: RetryReasons)
        ensures
            retry_views(r@) == retry_views(reasons@),
    {
        let mut out = retry_reason_list_new();
        let mut i: usize = 0;
        assert(retry_views(out@) =~= retry_views(reasons@).take(0));
        while i < reasons.len()
            invariant
                i <= reasons.len(),
                retry_views(out@) == retry_views(reasons@).take(i as int),
            decreases reasons.len() - i,
        {
            let reason = reasons[i].duplicate();
            assert(retry_views(out@.push(reason)) =~= retry_views(out@).push(reason@));
            assert(retry_views(reasons@).take(i + 1) =~= retry_views(reasons@).take(
                i as int,
            ).push(reasons@[i as int]@));
            retry_reason_list_push(&mut out, reason);
            i = i + 1;
        }
        assert(retry_views(reasons@).take(reasons.len() as int) =~= retry_views(reasons@));
        out
    }

    /// Copies of the reasons of the list, in order.
    pub fn to_vec(&self) -> (r: Vec<RetryReason>)
        ensures
            retry_views(r@) == retry_views(self@),
    {
        let mut out: Vec<RetryReason> = Vec::new();
        let n = retry_reason_list_len(self);
        let mut i: usize = 0;
        assert(retry_views(out@) =~= retry_views(self@).take(0));
        while i < n
            invariant
                i <= n,
                n == self@.len(),
                retry_views(out@) == retry_views(self@).take(i as int),
            decreases n - i,
        {
            let reason = retry_reason_list_get(self, i).duplicate();
            assert(retry_views(out@.push(reason)) =~= retry_views(out@).push(reason@));
            assert(retry_views(self@).take(i + 1) =~= retry_views(self@).take(i as int).push(
                self@[i as int]@,
            ));
            out.push(reason);
            i = i + 1;
        }
        assert(retry_views(self@).take(n as int) =~= retry_views(self@));
        out
    }

    /// A copy of the list.
    pub fn duplicate(&self) -> (r: RetryReasons)
        ensures
            retry_views(r@) == retry_views(self@),
    {
        let copies = self.to_vec();
        RetryReasons::from_vec(&copies)
    }
}

impl RetryReason {
    /// A copy of the reason.
    pub fn duplicate(&self) -> (r: RetryReason)
        ensures
            r@ == self@,
    {
        match self {
            RetryReason::Moved { hash_slot, address } => RetryReason::Moved {
                hash_slot: *hash_slot,
                address: (copy_of(&address.0), address.1),
            },
            RetryReason::Ask { hash_slot, address } => RetryReason::Ask {
                hash_slot: *hash_slot,
                address: (copy_of(&address.0), address.1),
            },
        }
    }
}

impl Clone for RetryReason {
    fn clone(&self) -> (r: RetryReason)
        ensures
            r@ == self@,
    {
        self.duplicate()
    }
}

impl Clone for RedisError {
    fn clone(&self) -> (r: RedisError)
        ensures
            r@ == self@,
    {
        self.duplicate()
    }
}

impl Clone for Error {
    fn clone(&self) -> (r: Error)
        ensures
            r@ == self@,
    {
        self.duplicate()
    }
}

/// A copy of a byte string.
pub fn copy_of(bytes: &Vec<u8>) -> (r: Vec<u8>)
    ensures
        r@ == bytes@,
{
    let mut out: Vec<u8> = Vec::new();
    let mut i: usize = 0;
    while i < bytes.len()
        invariant
            i <= bytes.len(),
            out@ == bytes@.take(i as int),
        decreases bytes.len() - i,
    {
        out.push(bytes[i]);
        assert(bytes@.take(i + 1) =~= bytes@.take(i as int).push(bytes@[i as int]));
        i = i + 1;
    }
    assert(bytes@.take(bytes.len() as int) =~= bytes@);
    out
}

impl RedisError {
    /// A copy of the error reply.
    pub fn duplicate(&self) -> (r: RedisError)
        ensures
            r@ == self@,
    {
        let kind = match &self.kind {
            RedisErrorKind::Generic => RedisErrorKind::Generic,
            RedisErrorKind::Moved { hash_slot, address } => RedisErrorKind::Moved {
                hash_slot: *hash_slot,
                address: (copy_of(&address.0), address.1),
            },
            RedisErrorKind::Ask { hash_slot, address } => RedisErrorKind::Ask {
                hash_slot: *hash_slot,
                address: (copy_of(&address.0), address.1),
            },
            RedisErrorKind::Other(name) => RedisErrorKind::Other(copy_of(name)),
        };
        RedisError { kind, description: copy_of(&self.description) }
    }
}

impl Error {
    /// A copy of the error.
    pub fn duplicate(&self) -> (r: Error)
        ensures
            r@ == self@,
    {
        match self {
            Error::Protocol(fault) => Error::Protocol(*fault),
            Error::UnknownCommand(name) => Error::UnknownCommand(copy_of(name)),
            Error::CrossSlot(name) => Error::CrossSlot(copy_of(name)),
            Error::NotSupported => Error::NotSupported,
            Error::KeyExtraction => Error::KeyExtraction,
            Error::UnexpectedReply => Error::UnexpectedReply,
            Error::ClusterMisconfiguration => Error::ClusterMisconfiguration,
            Error::Parse(target) => Error::Parse(*target),
            Error::Redis(e) => Error::Redis(e.duplicate()),
            Error::Retry(reasons) => Error::Retry(reasons.duplicate()),
            Error::Aborted => Error::Aborted,
            Error::Disconnected => Error::Disconnected,
        }
    }
}

} // verus!
