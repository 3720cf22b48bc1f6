//! Hello-first authentication and dispatch boundary.
//!
//! A connection says hello once, with the right token, before any command; nothing else reaches
//! the command handler.

use crate::codec;
use crate::codec::CodecError;
use crate::messages;
use crate::messages::{HelloResult, Request, Response};
use crate::remote;
use crate::schema::{RequestView, ResponseView};
use crate::text;
use crate::token::SessionToken;
use vstd::prelude::*;

verus! {

/// Build identifier told to clients.
pub const DAEMON_VERSION: &'static str = "0.1.0";

/// The feature told to clients: parallel ranged HTTP/1.1 transfers.
pub const SEGMENTS_CAPABILITY: &'static str = "h1-segments";

/// Executes commands that passed authentication and validation.
pub trait CommandHandler: Sized {
    /// What a handler may do about a request: the handler before and after, and the response. A
    /// handler that says nothing more may do anything.
    open spec fn may(before: Self, request: RequestView, after: Self, response: Response) -> bool {
        true
    }

    /// Execute one already validated command other than hello.
    fn handle(&mut self, request: Request) -> (response: Response)
        ensures
            Self::may(*old(self), request@, *final(self), response),
    ;
}

/// Authentication, version, schema, or dispatch failure.
#[derive(Clone, Copy, Debug, PartialEq, Eq, Structural)]
pub enum SessionError {
    /// A payload did not decode to a typed request.
    Codec(CodecError),
    /// A command arrived before authentication.
    AuthenticationRequired,
    /// The hello token did not match this daemon session.
    AuthenticationFailed,
    /// The requested protocol version is not the supported one.
    UnsupportedVersion {
        /// Version that the client requested.
        requested: u32,
        /// Version that the daemon supports.
        supported: u32,
    },
    /// A connection may negotiate only once.
    HelloRepeated,
}

/// What a payload that passed comes to.
pub enum Admission<Q = Request> {
    /// The connection is authenticated now; the greeting answers it.
    Greeting,
    /// A command for the handler.
    Command(Q),
}

/// The greeting of this build.
pub open spec fn greeting() -> ResponseView {
    Response::Hello(
        HelloResult {
            protocol_version: messages::PROTOCOL_VERSION,
            daemon_version: DAEMON_VERSION@,
            capabilities: seq![SEGMENTS_CAPABILITY@],
        },
    )
}

/// What a decoded request comes to in a connection.
pub open spec fn admission(
    token: Seq<u8>,
    authenticated: bool,
    request: RequestView,
) -> Result<Admission<RequestView>, SessionError> {
    match request {
        Request::Hello(params) => if authenticated {
            Err(SessionError::HelloRepeated)
        } else if params.protocol_version != messages::PROTOCOL_VERSION {
            Err(
                SessionError::UnsupportedVersion {
                    requested: params.protocol_version,
                    supported: messages::PROTOCOL_VERSION,
                },
            )
        } else if params.token != text::hex(token) {
            Err(SessionError::AuthenticationFailed)
        } else {
            Ok(Admission::Greeting)
        },
        _ => if !authenticated {
            Err(SessionError::AuthenticationRequired)
        } else if request.version() != messages::PROTOCOL_VERSION {
            Err(
                SessionError::UnsupportedVersion {
                    requested: request.version(),
                    supported: messages::PROTOCOL_VERSION,
                },
            )
        } else {
            Ok(Admission::Command(request))
        },
    }
}

/// What a payload comes to in a connection.
pub open spec fn payload_admission(token: Seq<u8>, authenticated: bool, payload: Seq<u8>) -> Result<
    (u64, Admission<RequestView>),
    SessionError,
> {
    match codec::request_said(payload) {
        None => Err(SessionError::Codec(CodecError::InvalidMessage)),
        Some((id, request)) => match admission(token, authenticated, request) {
            Ok(admitted) => Ok((id, admitted)),
            Err(error) => Err(error),
        },
    }
}

/// State of one client connection. It owns no transfer.
pub struct Session {
    token: SessionToken,
    authenticated: bool,
}

impl Session {
    /// The token that authenticates this connection.
    pub closed spec fn secret(&self) -> Seq<u8> {
        self.token@
    }

    /// The connection has said hello.
    pub closed spec fn is_authenticated(&self) -> bool {
        self.authenticated
    }

    /// Start an unauthenticated connection.
    pub fn new(token: SessionToken) -> (session: Self)
        ensures
            session.secret() == token@,
            !session.is_authenticated(),
    {
        Session { token, authenticated: false }
    }

    /// Judge one decoded request.
    pub fn judge(&mut self, request: Request) -> (judged: Result<Admission, SessionError>)
        ensures
            final(self).secret() == old(self).secret(),
            (match judged {
                Ok(Admission::Greeting) => Ok(Admission::Greeting),
                Ok(Admission::Command(command)) => Ok(Admission::Command(command@)),
                Err(error) => Err(error),
            }) == admission(old(self).secret(), old(self).is_authenticated(), request@),
            final(self).is_authenticated() == (old(self).is_authenticated() || judged is Ok),
    {
        match request {
            Request::Hello(params) => {
                if self.authenticated {
                    return Err(SessionError::HelloRepeated);
                }
                if params.protocol_version != messages::PROTOCOL_VERSION {
                    return Err(
                        SessionError::UnsupportedVersion {
                            requested: params.protocol_version,
                            supported: messages::PROTOCOL_VERSION,
                        },
                    );
                }
                if !self.token.matches_wire(params.token.expose()) {
                    return Err(SessionError::AuthenticationFailed);
                }
                self.authenticated = true;
                Ok(Admission::Greeting)
            },
            command => {
                if !self.authenticated {
                    return Err(SessionError::AuthenticationRequired);
                }
                let requested: u32 = command.protocol_version();
                if requested != messages::PROTOCOL_VERSION {
                    return Err(
                        SessionError::UnsupportedVersion {
                            requested,
                            supported: messages::PROTOCOL_VERSION,
                        },
                    );
                }
                Ok(Admission::Command(command))
            },
        }
    }

    /// Decode and judge one payload, and hand the handler a command that passed.
    ///
    /// A payload that fails reaches no handler and changes nothing.
    pub fn handle_payload<H: CommandHandler>(&mut self, payload: &[u8], handler: &mut H) -> (
        answered: Result<(u64, Response), SessionError>)
        ensures
            final(self).secret() == old(self).secret(),
            final(self).is_authenticated() == (old(self).is_authenticated() || answered is Ok),
            match payload_admission(old(self).secret(), old(self).is_authenticated(), payload@) {
                Err(error) => {
                    &&& answered == Err::<(u64, Response), SessionError>(error)
                    &&& *final(handler) == *old(handler)
                },
                Ok((id, Admission::Greeting)) => {
                    &&& answered is Ok
                    &&& answered->Ok_0.0 == id
                    &&& answered->Ok_0.1@ == greeting()
                    &&& *final(handler) == *old(handler)
                },
                Ok((id, Admission::Command(request))) => {
                    &&& answered is Ok
                    &&& answered->Ok_0.0 == id
                    &&& H::may(*old(handler), request, *final(handler), answered->Ok_0.1)
                },
            },
    {
        let (id, request) = match codec::decode_request(payload) {
            Ok(decoded) => decoded,
            Err(error) => {
                return Err(SessionError::Codec(error));
            },
        };
        match self.judge(request) {
            Ok(Admission::Greeting) => Ok((id, greet())),
            Ok(Admission::Command(command)) => {
                let response: Response = handler.handle(command);
                Ok((id, response))
            },
            Err(error) => Err(error),
        }
    }
}

/// The greeting of this build.
pub fn greet() -> (response: Response)
    ensures
        response@ == greeting(),
{
    let mut capabilities: Vec<String> = Vec::new();
    capabilities.push(SEGMENTS_CAPABILITY.to_owned());
    proof {
        assert(remote::texts(capabilities@) =~= seq![SEGMENTS_CAPABILITY@]);
    }
    Response::Hello(
        HelloResult {
            protocol_version: messages::PROTOCOL_VERSION,
            daemon_version: DAEMON_VERSION.to_owned(),
            capabilities,
        },
    )
}

/// A command reaches the handler only in a connection that has said hello, and only with the
/// supported version; a hello never does.
pub proof fn law_only_authenticated_commands_are_dispatched(
    token: Seq<u8>,
    authenticated: bool,
    payload: Seq<u8>,
)
    ensures
        payload_admission(token, authenticated, payload) matches Ok((_, Admission::Command(
            request,
        ))) ==> {
            &&& authenticated
            &&& request !is Hello
            &&& request.version() == messages::PROTOCOL_VERSION
            &&& codec::request_said(payload) is Some
            &&& (codec::request_said(payload)->0).1 == request
        },
{
}

/// A connection is authenticated by nothing but a first hello with the daemon's own token and the
/// supported version.
pub proof fn law_only_the_right_token_authenticates(
    token: Seq<u8>,
    request: RequestView,
)
    ensures
        admission(token, false, request) is Ok <==> (request matches Request::Hello(params)
            && params.protocol_version == messages::PROTOCOL_VERSION && params.token == text::hex(
            token,
        )),
        request is Hello ==> admission(token, true, request) == Err::<
            Admission<RequestView>,
            SessionError,
        >(SessionError::HelloRepeated),
{
}

/// Every request in a connection has one answer. Before the greeting a hello is judged by its
/// version and then by its token, and everything else must authenticate first; after it a hello is
/// one too many, and a command of the supported version is handed on as it is.
pub proof fn law_every_request_is_judged(token: Seq<u8>, authenticated: bool, request: RequestView)
    ensures
        ({
            let judged = admission(token, authenticated, request);
            let refused = |error: SessionError| judged == Err::<
                Admission<RequestView>,
                SessionError,
            >(error);
            let supported = request.version() == messages::PROTOCOL_VERSION;
            &&& refused(SessionError::AuthenticationRequired) <==> request !is Hello
                && !authenticated
            &&& refused(SessionError::HelloRepeated) <==> request is Hello && authenticated
            &&& (request is Hello) == !authenticated && !supported ==> refused(
                SessionError::UnsupportedVersion {
                    requested: request.version(),
                    supported: messages::PROTOCOL_VERSION,
                },
            )
            &&& refused(SessionError::AuthenticationFailed) <==> request is Hello && !authenticated
                && supported && request->Hello_0.token != text::hex(token)
            &&& request !is Hello && authenticated && supported ==> judged == Ok::<
                Admission<RequestView>,
                SessionError,
            >(Admission::Command(request))
            &&& request is Hello && !authenticated && supported && request->Hello_0.token
                == text::hex(token) ==> judged == Ok::<Admission<RequestView>, SessionError>(
                Admission::Greeting,
            )
        }),
{
}

/// A payload that says nothing is refused, and one that says a request comes to what that request
/// comes to, under the payload's own number.
pub proof fn law_a_payload_comes_to_what_it_says(
    token: Seq<u8>,
    authenticated: bool,
    payload: Seq<u8>,
    id: u64,
    request: RequestView,
)
    ensures
        codec::request_said(payload) is None ==> payload_admission(token, authenticated, payload)
            == Err::<(u64, Admission<RequestView>), SessionError>(
            SessionError::Codec(CodecError::InvalidMessage),
        ),
        codec::request_said(payload) == Some((id, request)) ==> {
            &&& payload_admission(token, authenticated, payload) is Ok <==> admission(
                token,
                authenticated,
                request,
            ) is Ok
            &&& payload_admission(token, authenticated, payload) is Ok ==> payload_admission(
                token,
                authenticated,
                payload,
            )->Ok_0 == (id, admission(token, authenticated, request)->Ok_0)
            &&& payload_admission(token, authenticated, payload) is Err ==> payload_admission(
                token,
                authenticated,
                payload,
            )->Err_0 == admission(token, authenticated, request)->Err_0
        },
{
}

/// The greeting tells the version that a hello must ask for, and what the daemon can do.
pub proof fn law_the_greeting_tells_the_accepted_version(token: Seq<u8>, request: RequestView)
    requires
        admission(token, false, request) is Ok,
    ensures
        greeting() is Hello,
        greeting()->Hello_0.protocol_version == request.version(),
        greeting()->Hello_0.daemon_version == DAEMON_VERSION@,
        greeting()->Hello_0.capabilities == seq![SEGMENTS_CAPABILITY@],
{
}

} // verus!
