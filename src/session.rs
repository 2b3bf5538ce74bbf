//! Session decisions: which transport and transcoder a connection to (or
//! from) an address uses, the handshake life cycle of a session, and the
//! length-prefixed framing of the framed-TCP substrate.

use vstd::prelude::*;
use crate::codec::{le16, u16_at, push_u16, push_raw, read_u16, read_raw};
use crate::transcoder::{
    TranscoderError, PlainTranscoder, NoiseTranscoder, NoiseEncryptor, NoiseDecryptor, aead_sealed,
    nonce_bytes, TAG_LEN,
};
use crate::LNP_MSG_MAX_LEN;

verus! {

/// The closed set of transport substrates.
#[derive(Clone, Copy, Debug, PartialEq, Eq)]
pub enum TransportKind {
    /// Length-prefixed frames over a TCP stream.
    Ftcp,
    /// Message-queue sockets.
    Zmq,
    /// Local POSIX sockets.
    Posix,
    Http,
    Websocket,
    Smtp,
}

/// Why a session could not be set up or went down.
#[derive(Clone, Copy, Debug, PartialEq, Eq)]
pub enum SessionError {
    /// The transport has no implementation; reported at connect or accept.
    UnsupportedTransport(TransportKind),
    HandshakeFailed,
    AuthenticationFailed,
    NonceExhausted,
    FrameTooLarge,
    TransportTimeout,
    ConnectionClosed,
}

impl SessionError {
    /// The session error that a transcoder failure ends the session with.
    pub fn from_transcoder(e: TranscoderError) -> (r: SessionError)
        ensures
            e == TranscoderError::FrameTooLarge ==> r == SessionError::FrameTooLarge,
            e == TranscoderError::NonceExhausted ==> r == SessionError::NonceExhausted,
            e == TranscoderError::AuthenticationFailed ==> r == SessionError::AuthenticationFailed,
            e == TranscoderError::ConnectionClosed ==> r == SessionError::ConnectionClosed,
    {
        match e {
            TranscoderError::FrameTooLarge => SessionError::FrameTooLarge,
            TranscoderError::NonceExhausted => SessionError::NonceExhausted,
            TranscoderError::AuthenticationFailed => SessionError::AuthenticationFailed,
            TranscoderError::ConnectionClosed => SessionError::ConnectionClosed,
        }
    }
}

/// Address of a peer on this machine.
#[derive(Clone, Debug, PartialEq, Eq)]
pub enum LocalSocketAddr {
    Zmq(String),
    Posix(String),
}

/// Network locator of a remote peer.
#[derive(Clone, Debug, PartialEq, Eq)]
pub enum RemoteSocketAddr {
    Ftcp(String),
    Zmq(String),
    Http(String),
    Websocket(String),
    Smtp(String),
}

/// A remote peer: its public key identity and where it is reached.
#[derive(Clone, Debug, PartialEq, Eq)]
pub struct RemoteNodeAddr {
    pub node_id: Vec<u8>,
    pub remote_addr: RemoteSocketAddr,
}

/// A local or a remote peer.
#[derive(Clone, Debug, PartialEq, Eq)]
pub enum NodeAddr {
    Local(LocalSocketAddr),
    Remote(RemoteNodeAddr),
}

/// The identity of this node: its private key material.
#[derive(Clone, Debug, PartialEq, Eq)]
pub struct LocalNode {
    pub private_key: Vec<u8>,
}

/// How frames of a session are protected.
#[derive(Clone, Copy, Debug, PartialEq, Eq)]
pub enum Security {
    /// No handshake and no encryption: local or self-secured channels only.
    Plain,
    /// Noise handshake started by this node, towards the remote identity.
    NoiseInitiator,
    /// Noise handshake answered by this node.
    NoiseResponder,
}

/// What opening a session takes: the transport to drive and the security
/// that the session's transcoder needs.
#[derive(Clone, Copy, Debug, PartialEq, Eq)]
pub struct SessionPlan {
    pub transport: TransportKind,
    pub security: Security,
}

/// The plan of a session with a local peer: message-queue sockets run plain;
/// POSIX sockets have no implementation.
pub open spec fn local_spec(a: LocalSocketAddr) -> Result<SessionPlan, SessionError> {
    match a {
        LocalSocketAddr::Zmq(_) => Ok(SessionPlan { transport: TransportKind::Zmq, security: Security::Plain }),
        LocalSocketAddr::Posix(_) => Err(SessionError::UnsupportedTransport(TransportKind::Posix)),
    }
}

/// The plan of a session with a remote peer: framed TCP needs the Noise
/// handshake in the given role; message-queue sockets secure themselves and
/// run plain; the other transports have no implementation.
pub open spec fn remote_spec(a: RemoteSocketAddr, role: Security) -> Result<SessionPlan, SessionError> {
    match a {
        RemoteSocketAddr::Ftcp(_) => Ok(SessionPlan { transport: TransportKind::Ftcp, security: role }),
        RemoteSocketAddr::Zmq(_) => Ok(
            SessionPlan { transport: TransportKind::Zmq, security: Security::Plain },
        ),
        RemoteSocketAddr::Http(_) => Err(SessionError::UnsupportedTransport(TransportKind::Http)),
        RemoteSocketAddr::Websocket(_) => Err(
            SessionError::UnsupportedTransport(TransportKind::Websocket),
        ),
        RemoteSocketAddr::Smtp(_) => Err(SessionError::UnsupportedTransport(TransportKind::Smtp)),
    }
}

fn local_plan(a: &LocalSocketAddr) -> (r: Result<SessionPlan, SessionError>)
    ensures
        r == local_spec(*a),
{
    match a {
        LocalSocketAddr::Zmq(_) => Ok(SessionPlan { transport: TransportKind::Zmq, security: Security::Plain }),
        LocalSocketAddr::Posix(_) => Err(SessionError::UnsupportedTransport(TransportKind::Posix)),
    }
}

fn remote_plan(a: &RemoteSocketAddr, role: Security) -> (r: Result<SessionPlan, SessionError>)
    ensures
        r == remote_spec(*a, role),
{
    match a {
        RemoteSocketAddr::Ftcp(_) => Ok(SessionPlan { transport: TransportKind::Ftcp, security: role }),
        RemoteSocketAddr::Zmq(_) => Ok(
            SessionPlan { transport: TransportKind::Zmq, security: Security::Plain },
        ),
        RemoteSocketAddr::Http(_) => Err(SessionError::UnsupportedTransport(TransportKind::Http)),
        RemoteSocketAddr::Websocket(_) => Err(
            SessionError::UnsupportedTransport(TransportKind::Websocket),
        ),
        RemoteSocketAddr::Smtp(_) => Err(SessionError::UnsupportedTransport(TransportKind::Smtp)),
    }
}

/// Addresses that a session can be opened to.
pub trait Connect {
    spec fn connect_plan(&self) -> Result<SessionPlan, SessionError>;

    /// The public key identity of the peer at this address (empty for local
    /// peers).
    spec fn remote_identity(&self) -> Seq<u8>;

    /// Starts opening a session from `node` to this address: the handshake
    /// to drive, keyed with `node`'s private key against the peer's
    /// identity. Transports without implementation fail here, at once.
    fn connect(&self, node: &LocalNode) -> (r: Result<Handshake, SessionError>)
        ensures
            r matches Err(e) ==> self.connect_plan() == Err::<SessionPlan, SessionError>(e),
            r matches Ok(h) ==> self.connect_plan() == Ok::<SessionPlan, SessionError>(h.plan())
                && h.wf() && h.local_key() == node.private_key@ && h.remote_id()
                == self.remote_identity() && h.state() == initial_state(h.plan()) && h.failure() is None,
    ;
}

/// Addresses that a session can be accepted at.
pub trait Accept {
    spec fn accept_plan(&self) -> Result<SessionPlan, SessionError>;

    /// Starts accepting a session at this address for `node`: the handshake
    /// to drive, keyed with `node`'s private key; the peer's identity is
    /// not known yet. Transports without implementation fail here, at once.
    fn accept(&self, node: &LocalNode) -> (r: Result<Handshake, SessionError>)
        ensures
            r matches Err(e) ==> self.accept_plan() == Err::<SessionPlan, SessionError>(e),
            r matches Ok(h) ==> self.accept_plan() == Ok::<SessionPlan, SessionError>(h.plan())
                && h.wf() && h.local_key() == node.private_key@ && h.remote_id() == Seq::<u8>::empty()
                && h.state() == initial_state(h.plan()) && h.failure() is None,
    ;
}

/// Where a new handshake stands: plain sessions need none and are
/// established at once; Noise sessions start with no act done.
pub open spec fn initial_state(plan: SessionPlan) -> SessionState {
    if plan.security is Plain {
        SessionState::Established
    } else {
        SessionState::Handshaking(0)
    }
}

/// Starts the handshake of `plan` for `node` against `remote_id`.
fn start(plan: Result<SessionPlan, SessionError>, node: &LocalNode, remote_id: &[u8]) -> (r: Result<
    Handshake,
    SessionError,
>)
    ensures
        r matches Err(e) ==> plan == Err::<SessionPlan, SessionError>(e),
        r matches Ok(h) ==> plan == Ok::<SessionPlan, SessionError>(h.plan()) && h.wf() && h.local_key()
            == node.private_key@ && h.remote_id() == remote_id@ && h.state() == initial_state(h.plan())
            && h.failure() is None,
{
    let plan = match plan {
        Ok(p) => p,
        Err(e) => return Err(e),
    };
    let state = match plan.security {
        Security::Plain => SessionState::Established,
        _ => SessionState::Handshaking(0),
    };
    Ok(
        Handshake {
            plan,
            local_key: vstd::slice::slice_to_vec(node.private_key.as_slice()),
            remote_id: vstd::slice::slice_to_vec(remote_id),
            state,
            failure: None,
        },
    )
}

impl Connect for LocalSocketAddr {
    open spec fn connect_plan(&self) -> Result<SessionPlan, SessionError> {
        local_spec(*self)
    }

    open spec fn remote_identity(&self) -> Seq<u8> {
        Seq::empty()
    }

    fn connect(&self, node: &LocalNode) -> (r: Result<Handshake, SessionError>) {
        start(local_plan(self), node, &[])
    }
}

impl Accept for LocalSocketAddr {
    open spec fn accept_plan(&self) -> Result<SessionPlan, SessionError> {
        local_spec(*self)
    }

    fn accept(&self, node: &LocalNode) -> (r: Result<Handshake, SessionError>) {
        start(local_plan(self), node, &[])
    }
}

impl Connect for RemoteNodeAddr {
    open spec fn connect_plan(&self) -> Result<SessionPlan, SessionError> {
        remote_spec(self.remote_addr, Security::NoiseInitiator)
    }

    open spec fn remote_identity(&self) -> Seq<u8> {
        self.node_id@
    }

    fn connect(&self, node: &LocalNode) -> (r: Result<Handshake, SessionError>) {
        start(remote_plan(&self.remote_addr, Security::NoiseInitiator), node, self.node_id.as_slice())
    }
}

impl Accept for RemoteNodeAddr {
    open spec fn accept_plan(&self) -> Result<SessionPlan, SessionError> {
        remote_spec(self.remote_addr, Security::NoiseResponder)
    }

    fn accept(&self, node: &LocalNode) -> (r: Result<Handshake, SessionError>) {
        start(remote_plan(&self.remote_addr, Security::NoiseResponder), node, &[])
    }
}

impl Connect for NodeAddr {
    open spec fn connect_plan(&self) -> Result<SessionPlan, SessionError> {
        match self {
            NodeAddr::Local(a) => a.connect_plan(),
            NodeAddr::Remote(a) => a.connect_plan(),
        }
    }

    open spec fn remote_identity(&self) -> Seq<u8> {
        match self {
            NodeAddr::Local(a) => a.remote_identity(),
            NodeAddr::Remote(a) => a.remote_identity(),
        }
    }

    fn connect(&self, node: &LocalNode) -> (r: Result<Handshake, SessionError>) {
        match self {
            NodeAddr::Local(a) => a.connect(node),
            NodeAddr::Remote(a) => a.connect(node),
        }
    }
}

impl Accept for NodeAddr {
    open spec fn accept_plan(&self) -> Result<SessionPlan, SessionError> {
        match self {
            NodeAddr::Local(a) => a.accept_plan(),
            NodeAddr::Remote(a) => a.accept_plan(),
        }
    }

    fn accept(&self, node: &LocalNode) -> (r: Result<Handshake, SessionError>) {
        match self {
            NodeAddr::Local(a) => a.accept(node),
            NodeAddr::Remote(a) => a.accept(node),
        }
    }
}

/// Number of handshake acts that a Noise session goes through.
pub const HANDSHAKE_ACTS: u8 = 3;

/// The life cycle of a session.
#[derive(Clone, Copy, Debug, PartialEq, Eq)]
pub enum SessionState {
    Idle,
    /// Handshaking, with this many acts done.
    Handshaking(u8),
    Established,
    Closed,
}

/// What happened to a session.
#[derive(Clone, Copy, Debug, PartialEq, Eq)]
pub enum SessionEvent {
    /// The handshake was started.
    Begin,
    /// One handshake act completed.
    ActDone,
    /// One handshake act failed.
    ActFailed,
    /// A frame did not authenticate.
    AuthFailed,
    /// A nonce counter ran out.
    NonceExhausted,
    /// The transport signalled a timeout.
    Timeout,
    /// The transport was closed or dropped.
    TransportClosed,
}

/// The state after `e` in state `s`, and the error that closed the session
/// if it closed.
pub open spec fn session_next(s: SessionState, e: SessionEvent) -> (SessionState, Option<SessionError>) {
    match (s, e) {
        (SessionState::Closed, _) => (SessionState::Closed, Some(SessionError::ConnectionClosed)),
        (_, SessionEvent::Timeout) => (SessionState::Closed, Some(SessionError::TransportTimeout)),
        (_, SessionEvent::TransportClosed) => (
            SessionState::Closed,
            Some(SessionError::ConnectionClosed),
        ),
        (SessionState::Idle, SessionEvent::Begin) => (SessionState::Handshaking(0), None),
        (SessionState::Handshaking(n), SessionEvent::ActDone) => if n + 1 >= HANDSHAKE_ACTS {
            (SessionState::Established, None)
        } else {
            (SessionState::Handshaking((n + 1) as u8), None)
        },
        (SessionState::Established, SessionEvent::AuthFailed) => (
            SessionState::Closed,
            Some(SessionError::AuthenticationFailed),
        ),
        (SessionState::Established, SessionEvent::NonceExhausted) => (
            SessionState::Closed,
            Some(SessionError::NonceExhausted),
        ),
        _ => (SessionState::Closed, Some(SessionError::HandshakeFailed)),
    }
}

/// Moves a session on by one event. A timeout or a closed transport closes
/// the session in any state; a failed handshake act, or any event out of
/// order, closes it with `HandshakeFailed`; an authentication failure or a
/// used-up nonce closes an established session; a closed session stays
/// closed.
pub fn session_step(s: SessionState, e: SessionEvent) -> (r: (SessionState, Option<SessionError>))
    requires
        s matches SessionState::Handshaking(n) ==> n < HANDSHAKE_ACTS,
    ensures
        r == session_next(s, e),
        r.0 matches SessionState::Handshaking(n) ==> n < HANDSHAKE_ACTS,
        r.0 is Closed <==> r.1 is Some,
{
    match (s, e) {
        (SessionState::Closed, _) => (SessionState::Closed, Some(SessionError::ConnectionClosed)),
        (_, SessionEvent::Timeout) => (SessionState::Closed, Some(SessionError::TransportTimeout)),
        (_, SessionEvent::TransportClosed) => (
            SessionState::Closed,
            Some(SessionError::ConnectionClosed),
        ),
        (SessionState::Idle, SessionEvent::Begin) => (SessionState::Handshaking(0), None),
        (SessionState::Handshaking(n), SessionEvent::ActDone) => if n + 1 >= HANDSHAKE_ACTS {
            (SessionState::Established, None)
        } else {
            (SessionState::Handshaking(n + 1), None)
        },
        (SessionState::Established, SessionEvent::AuthFailed) => (
            SessionState::Closed,
            Some(SessionError::AuthenticationFailed),
        ),
        (SessionState::Established, SessionEvent::NonceExhausted) => (
            SessionState::Closed,
            Some(SessionError::NonceExhausted),
        ),
        _ => (SessionState::Closed, Some(SessionError::HandshakeFailed)),
    }
}

/// A session becomes established only when its last handshake act
/// completes; from a partial handshake any event but a completed act closes
/// it.
pub proof fn law_established_after_all_acts(s: SessionState, e: SessionEvent)
    requires
        s matches SessionState::Handshaking(n) ==> n < HANDSHAKE_ACTS,
    ensures
        session_next(s, e).0 is Established && !(s is Established) ==> s == SessionState::Handshaking(
            (HANDSHAKE_ACTS - 1) as u8,
        ) && e == SessionEvent::ActDone,
        s is Handshaking && !(e is ActDone) ==> session_next(s, e).0 is Closed,
{
}

/// A closed session stays closed, whatever happens to it.
pub proof fn law_closed_is_final(e: SessionEvent)
    ensures
        session_next(SessionState::Closed, e).0 is Closed,
{
}

/// A timeout closes a session in any state with `TransportTimeout`, unless
/// it was closed already.
pub proof fn law_timeout_closes(s: SessionState)
    ensures
        !(s is Closed) ==> session_next(s, SessionEvent::Timeout) == (
            SessionState::Closed,
            Some(SessionError::TransportTimeout),
        ),
{
}

/// A frame of the framed-TCP substrate: its length as a `u16`, then its bytes.
pub open spec fn ftcp_bytes(frame: Seq<u8>) -> Seq<u8> {
    le16(frame.len() as u16) + frame
}

/// Writes one frame for the framed-TCP substrate; frames longer than
/// `u16::MAX` bytes are refused.
pub fn ftcp_frame(frame: &[u8]) -> (r: Result<Vec<u8>, SessionError>)
    ensures
        frame@.len() <= u16::MAX <==> r is Ok,
        r matches Ok(b) ==> b@ == ftcp_bytes(frame@),
        r matches Err(e) ==> e == SessionError::FrameTooLarge,
{
    if frame.len() > 65535 {
        return Err(SessionError::FrameTooLarge);
    }
    let mut out: Vec<u8> = Vec::new();
    push_u16(&mut out, frame.len() as u16);
    push_raw(&mut out, frame);
    assert(out@ =~= ftcp_bytes(frame@));
    Ok(out)
}

/// Takes the first frame off a framed-TCP read buffer: the frame and the
/// number of bytes it took, or `None` while the buffer does not hold it
/// whole yet.
pub fn ftcp_unframe(buf: &[u8]) -> (r: Option<(Vec<u8>, usize)>)
    ensures
        (buf@.len() >= 2 && buf@.len() >= 2 + u16_at(buf@, 0)) <==> r is Some,
        r matches Some((f, used)) ==> used == 2 + u16_at(buf@, 0) && f@ == buf@.subrange(2, used as int)
            && buf@.subrange(0, used as int) == ftcp_bytes(f@),
{
    let len = match read_u16(buf, 0) {
        Ok(l) => l,
        Err(_) => return None,
    };
    match read_raw(buf, 2, len as usize) {
        Ok(f) => {
            let used = 2 + len as usize;
            proof {
                assert(buf@.subrange(0, used as int) =~= ftcp_bytes(f@)) by {
                    assert(f@.len() == len);
                    assert(u16_at(buf@, 0) == len);
                    assert((len % 256) as u8 == buf@[0] && (len / 256) as u8 == buf@[1]) by {
                        let a = buf@[0];
                        let b = buf@[1];
                        assert(len == a + 256 * b);
                    }
                }
            }
            Some((f, used))
        },
        Err(_) => None,
    }
}

/// A session being opened: its plan, the keys it runs with, where its
/// handshake stands, and the error that ended it, if one did. Only a
/// handshake that reached `Established` gives a session.
#[derive(Debug)]
pub struct Handshake {
    plan: SessionPlan,
    local_key: Vec<u8>,
    remote_id: Vec<u8>,
    state: SessionState,
    failure: Option<SessionError>,
}

impl Handshake {
    pub closed spec fn plan(&self) -> SessionPlan {
        self.plan
    }

    pub closed spec fn local_key(&self) -> Seq<u8> {
        self.local_key@
    }

    pub closed spec fn remote_id(&self) -> Seq<u8> {
        self.remote_id@
    }

    pub closed spec fn state(&self) -> SessionState {
        self.state
    }

    pub closed spec fn failure(&self) -> Option<SessionError> {
        self.failure
    }

    pub open spec fn wf(&self) -> bool {
        &&& (self.state() matches SessionState::Handshaking(n) ==> n < HANDSHAKE_ACTS)
        &&& (self.state() is Closed <==> self.failure() is Some)
    }

    pub fn get_plan(&self) -> (r: SessionPlan)
        ensures
            r == self.plan(),
    {
        self.plan
    }

    /// The private key this node runs the handshake with.
    pub fn get_local_key(&self) -> (r: &[u8])
        ensures
            r@ == self.local_key(),
    {
        self.local_key.as_slice()
    }

    /// The identity of the peer, where it is known.
    pub fn get_remote_id(&self) -> (r: &[u8])
        ensures
            r@ == self.remote_id(),
    {
        self.remote_id.as_slice()
    }

    pub fn get_state(&self) -> (r: SessionState)
        ensures
            r == self.state(),
    {
        self.state
    }

    /// Records one event of the handshake: the new state is the one
    /// `session_next` gives, and the first error that closes the handshake
    /// is kept.
    pub fn event(&mut self, e: SessionEvent) -> (r: Option<SessionError>)
        requires
            old(self).wf(),
        ensures
            final(self).wf(),
            final(self).plan() == old(self).plan(),
            final(self).local_key() == old(self).local_key(),
            final(self).remote_id() == old(self).remote_id(),
            (final(self).state(), r) == session_next(old(self).state(), e),
            final(self).failure() == if old(self).state() is Closed {
                old(self).failure()
            } else {
                r
            },
    {
        let (next, err) = session_step(self.state, e);
        match self.state {
            SessionState::Closed => {},
            _ => {
                self.failure = err;
            },
        }
        self.state = next;
        err
    }

    /// The plain session of a plan that needs no handshake. Anything else is
    /// refused with the error that ended the handshake, or `HandshakeFailed`.
    pub fn into_plain_session(self) -> (r: Result<Session, SessionError>)
        requires
            self.wf(),
        ensures
            (self.state() is Established && self.plan().security is Plain) <==> r is Ok,
            r matches Ok(s) ==> s.wf() && s.is_plain() && !s.shut(),
            r matches Err(e) ==> e == match self.failure() {
                Some(x) => x,
                None => SessionError::HandshakeFailed,
            },
    {
        match (self.state, self.plan.security) {
            (SessionState::Established, Security::Plain) => Ok(Session::plain()),
            _ => Err(
                match self.failure {
                    Some(x) => x,
                    None => SessionError::HandshakeFailed,
                },
            ),
        }
    }

    /// The Noise session that a completed handshake gives, over the cipher
    /// directions that its acts derived. A handshake with acts left, or that
    /// failed, gives no session: it is refused with the error that ended it,
    /// or `HandshakeFailed`.
    pub fn into_noise_session(self, encryptor: NoiseEncryptor, decryptor: NoiseDecryptor) -> (r:
        Result<Session, SessionError>)
        requires
            self.wf(),
            encryptor.wf(),
            decryptor.wf(),
            !decryptor.shut(),
        ensures
            (self.state() is Established && !(self.plan().security is Plain)) <==> r is Ok,
            r matches Ok(s) ==> s.wf() && !s.is_plain() && !s.shut() && s.send_state() == (
                encryptor.key(),
                encryptor.nonce(),
            ) && s.recv_state() == (decryptor.key(), decryptor.nonce()),
            r matches Err(e) ==> e == match self.failure() {
                Some(x) => x,
                None => SessionError::HandshakeFailed,
            },
    {
        match (self.state, self.plan.security) {
            (SessionState::Established, Security::NoiseInitiator) | (
                SessionState::Established,
                Security::NoiseResponder,
            ) => Ok(Session::noise(encryptor, decryptor)),
            _ => Err(
                match self.failure {
                    Some(x) => x,
                    None => SessionError::HandshakeFailed,
                },
            ),
        }
    }
}

/// The transcoder of an established session.
#[derive(Debug)]
pub enum Transcoder {
    Plain(PlainTranscoder),
    Noise(NoiseTranscoder),
}

/// An established session: its transcoder, and whether a fatal error has
/// closed it. A session is only ever built from a completed handshake (or
/// none, for plain channels).
#[derive(Debug)]
pub struct Session {
    transcoder: Transcoder,
    closed: bool,
}

/// The sending half of a split session.
#[derive(Debug)]
pub enum SendHalf {
    Plain(PlainTranscoder),
    Noise(NoiseEncryptor),
}

/// The receiving half of a split session.
#[derive(Debug)]
pub enum RecvHalf {
    Plain(PlainTranscoder),
    Noise(NoiseDecryptor),
}

impl Session {
    /// Whether a fatal error has closed the session.
    pub closed spec fn shut(&self) -> bool {
        self.closed
    }

    pub closed spec fn is_plain(&self) -> bool {
        self.transcoder is Plain
    }

    /// Key and next nonce of the sending direction of a Noise session.
    pub closed spec fn send_state(&self) -> (Seq<u8>, u64) {
        match self.transcoder {
            Transcoder::Noise(t) => (t.encryptor.key(), t.encryptor.nonce()),
            Transcoder::Plain(_) => (Seq::empty(), 0),
        }
    }

    /// Key and next nonce of the receiving direction of a Noise session.
    pub closed spec fn recv_state(&self) -> (Seq<u8>, u64) {
        match self.transcoder {
            Transcoder::Noise(t) => (t.decryptor.key(), t.decryptor.nonce()),
            Transcoder::Plain(_) => (Seq::empty(), 0),
        }
    }

    pub closed spec fn wf(&self) -> bool {
        match self.transcoder {
            Transcoder::Noise(t) => t.encryptor.wf() && t.decryptor.wf() && (t.decryptor.shut()
                ==> self.closed),
            Transcoder::Plain(_) => true,
        }
    }

    /// A session over a local or self-secured channel, with no encryption.
    pub fn plain() -> (r: Session)
        ensures
            r.wf(),
            r.is_plain(),
            !r.shut(),
    {
        Session { transcoder: Transcoder::Plain(PlainTranscoder), closed: false }
    }

    /// A session over the two cipher directions of a completed Noise
    /// handshake.
    fn noise(encryptor: NoiseEncryptor, decryptor: NoiseDecryptor) -> (r: Session)
        requires
            encryptor.wf(),
            decryptor.wf(),
            !decryptor.shut(),
        ensures
            r.wf(),
            !r.is_plain(),
            !r.shut(),
            r.send_state() == (encryptor.key(), encryptor.nonce()),
            r.recv_state() == (decryptor.key(), decryptor.nonce()),
    {
        Session { transcoder: Transcoder::Noise(NoiseTranscoder { encryptor, decryptor }), closed: false }
    }

    /// Whether a fatal error has closed the session.
    pub fn is_closed(&self) -> (r: bool)
        ensures
            r == self.shut(),
    {
        self.closed
    }

    /// Ends the session on a timeout signalled by its transport: an open
    /// session closes with `TransportTimeout`; a closed one stays closed.
    pub fn timeout(&mut self) -> (r: SessionError)
        requires
            old(self).wf(),
        ensures
            final(self).wf(),
            final(self).shut(),
            final(self).is_plain() == old(self).is_plain(),
            final(self).send_state() == old(self).send_state(),
            final(self).recv_state() == old(self).recv_state(),
            !old(self).shut() ==> r == SessionError::TransportTimeout,
            old(self).shut() ==> r == SessionError::ConnectionClosed,
    {
        if self.closed {
            return SessionError::ConnectionClosed;
        }
        self.closed = true;
        SessionError::TransportTimeout
    }

    /// Closes the session, as when its channel is dropped.
    pub fn close(&mut self)
        requires
            old(self).wf(),
        ensures
            final(self).wf(),
            final(self).shut(),
            final(self).is_plain() == old(self).is_plain(),
            final(self).send_state() == old(self).send_state(),
            final(self).recv_state() == old(self).recv_state(),
    {
        self.closed = true;
    }

    /// The frame that carries `payload`. A payload too large for one frame is
    /// refused and the session stays open; a used-up nonce closes the
    /// session; a closed session sends nothing.
    pub fn send(&mut self, payload: &[u8]) -> (r: Result<Vec<u8>, SessionError>)
        requires
            old(self).wf(),
        ensures
            final(self).wf(),
            final(self).is_plain() == old(self).is_plain(),
            final(self).recv_state() == old(self).recv_state(),
            final(self).send_state().0 == old(self).send_state().0,
            old(self).shut() ==> r == Err::<Vec<u8>, SessionError>(SessionError::ConnectionClosed)
                && final(self).shut(),
            !old(self).shut() && old(self).is_plain() ==> (payload@.len() <= LNP_MSG_MAX_LEN
                <==> r is Ok),
            !old(self).shut() && !old(self).is_plain() ==> (payload@.len() + TAG_LEN
                <= LNP_MSG_MAX_LEN && old(self).send_state().1 < u64::MAX <==> r is Ok),
            r == Err::<Vec<u8>, SessionError>(SessionError::FrameTooLarge) ==> final(self).shut()
                == old(self).shut(),
            r == Err::<Vec<u8>, SessionError>(SessionError::NonceExhausted) ==> final(self).shut(),
            r is Err ==> final(self).send_state() == old(self).send_state(),
            r is Ok ==> !final(self).shut(),
            r matches Ok(f) ==> if old(self).is_plain() {
                f@ == payload@
            } else {
                f@ == aead_sealed(old(self).send_state().0, nonce_bytes(old(self).send_state().1), payload@)
                    && final(self).send_state().1 == old(self).send_state().1 + 1
            },
            !old(self).shut() && old(self).is_plain() && payload@.len() > LNP_MSG_MAX_LEN ==> r
                == Err::<Vec<u8>, SessionError>(SessionError::FrameTooLarge) && !final(self).shut(),
            !old(self).shut() && !old(self).is_plain() && payload@.len() + TAG_LEN > LNP_MSG_MAX_LEN
                ==> r == Err::<Vec<u8>, SessionError>(SessionError::FrameTooLarge) && !final(self).shut(),
            !old(self).shut() && !old(self).is_plain() && payload@.len() + TAG_LEN <= LNP_MSG_MAX_LEN
                && old(self).send_state().1 == u64::MAX ==> r == Err::<Vec<u8>, SessionError>(
                SessionError::NonceExhausted,
            ) && final(self).shut(),
            r matches Err(e) ==> e == SessionError::ConnectionClosed || e == SessionError::FrameTooLarge
                || e == SessionError::NonceExhausted,
    {
        if self.closed {
            return Err(SessionError::ConnectionClosed);
        }
        match &mut self.transcoder {
            Transcoder::Plain(p) => {
                if payload.len() > LNP_MSG_MAX_LEN {
                    return Err(SessionError::FrameTooLarge);
                }
                Ok(p.encrypt(payload))
            },
            Transcoder::Noise(t) => match t.encryptor.encrypt(payload) {
                Ok(c) => Ok(c),
                Err(e) => {
                    match e {
                        TranscoderError::NonceExhausted => {
                            self.closed = true;
                        },
                        _ => {},
                    }
                    Err(SessionError::from_transcoder(e))
                },
            },
        }
    }

    /// The payload that a received frame carries. A frame that does not
    /// authenticate, or a used-up nonce, closes the session; a closed
    /// session receives nothing.
    pub fn recv(&mut self, frame: &[u8]) -> (r: Result<Vec<u8>, SessionError>)
        requires
            old(self).wf(),
        ensures
            final(self).wf(),
            final(self).is_plain() == old(self).is_plain(),
            final(self).send_state() == old(self).send_state(),
            final(self).recv_state().0 == old(self).recv_state().0,
            old(self).shut() ==> r == Err::<Vec<u8>, SessionError>(SessionError::ConnectionClosed)
                && final(self).shut(),
            !old(self).shut() && old(self).is_plain() ==> r is Ok,
            r is Err ==> final(self).shut() && final(self).recv_state() == old(self).recv_state(),
            r is Ok ==> !final(self).shut(),
            r matches Ok(p) ==> if old(self).is_plain() {
                p@ == frame@
            } else {
                aead_sealed(old(self).recv_state().0, nonce_bytes(old(self).recv_state().1), p@)
                    == frame@ && final(self).recv_state().1 == old(self).recv_state().1 + 1
            },
            !old(self).shut() && !old(self).is_plain() && old(self).recv_state().1 == u64::MAX ==> r
                == Err::<Vec<u8>, SessionError>(SessionError::NonceExhausted),
            !old(self).shut() && !old(self).is_plain() && old(self).recv_state().1 < u64::MAX ==> (r
                is Err <==> r == Err::<Vec<u8>, SessionError>(SessionError::AuthenticationFailed)),
            !old(self).shut() && !old(self).is_plain() && old(self).recv_state().1 < u64::MAX
                && frame@.len() <= LNP_MSG_MAX_LEN && (exists|q: Seq<u8>|
                aead_sealed(old(self).recv_state().0, nonce_bytes(old(self).recv_state().1), q)
                    == frame@) ==> r is Ok,
            r matches Err(e) ==> e == SessionError::ConnectionClosed || e
                == SessionError::AuthenticationFailed || e == SessionError::NonceExhausted,
    {
        if self.closed {
            return Err(SessionError::ConnectionClosed);
        }
        match &mut self.transcoder {
            Transcoder::Plain(p) => Ok(p.decrypt(frame)),
            Transcoder::Noise(t) => match t.decryptor.decrypt(frame) {
                Ok(p) => Ok(p),
                Err(e) => {
                    self.closed = true;
                    Err(SessionError::from_transcoder(e))
                },
            },
        }
    }

    /// Splits the session into halves that own its two directions apart.
    pub fn split(self) -> (r: (SendHalf, RecvHalf))
        requires
            self.wf(),
        ensures
            self.is_plain() <==> r.0 is Plain,
            self.is_plain() <==> r.1 is Plain,
            r.0 matches SendHalf::Noise(e) ==> e.wf() && (e.key(), e.nonce()) == self.send_state(),
            r.1 matches RecvHalf::Noise(d) ==> d.wf() && (d.key(), d.nonce()) == self.recv_state(),
    {
        match self.transcoder {
            Transcoder::Plain(p) => (SendHalf::Plain(p), RecvHalf::Plain(p)),
            Transcoder::Noise(t) => {
                let (e, d) = t.split();
                (SendHalf::Noise(e), RecvHalf::Noise(d))
            },
        }
    }
}

} // verus!
