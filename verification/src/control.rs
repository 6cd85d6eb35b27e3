//! The control plane: what the client does about each message of the
//! portal, each error of the channel and each event of the tunnel.
//!
//! Nothing here talks to the portal or the tunnel. Each function returns
//! the commands for whoever does, in the order in which they are to be
//! carried out, and where a command has an outcome that matters, a second
//! function takes that outcome.

use crate::error::Error;
use crate::ip::IpAddress;
use crate::messages::{
    BroadcastGatewayIceCandidates, ChannelError, Connect, ConnectionDetails, DomainResponse,
    EgressMessages, ErrorInfo, GatewayIceCandidates, GatewayResponse, IceParameters, InitClient,
    Interface, Key, KnownError, MessageRef, Messages, Reason, Relay, Request,
};
use crate::resources::{uuid_from_text, GatewayId, ResourceDescription, ResourceId};
use crate::sentinel::{
    effective_dns_servers, effective_servers, sentinel_dns_mapping, sentinel_pairs,
    sentinels_suffice, DnsServer, SentinelMapping,
};
use crate::tunnel::Event;
use vstd::prelude::*;

verus! {

/// Something for the owner of the tunnel and of the channel to do.
#[allow(inconsistent_fields)]
#[derive(Debug)]
pub enum Command {
    /// Set the device up with this interface and these sentinels as its DNS
    /// servers, then report the outcome to `ControlPlane::interface_set`.
    SetInterface { interface: Interface, sentinel_mapping: SentinelMapping },
    /// Tell the tunnel of a resource.
    AddResource(ResourceDescription),
    /// Take a resource from the tunnel and stop the peers that serve it.
    RemoveResource(ResourceId),
    /// Ask the tunnel to connect to a resource, then report the outcome to
    /// `ControlPlane::connection_requested`.
    RequestConnection {
        resource_id: ResourceId,
        gateway_id: GatewayId,
        relays: Vec<Relay>,
        reference: Option<String>,
    },
    /// Hand the tunnel a gateway's answer to an offer.
    ReceivedOfferResponse {
        resource_id: ResourceId,
        ice_parameters: IceParameters,
        domain_response: Option<DomainResponse>,
        gateway_public_key: Key,
    },
    /// Hand the tunnel the addresses that a gateway resolved.
    ReceivedDomainParameters { resource_id: ResourceId, domain_response: DomainResponse },
    /// Hand the tunnel a candidate of a gateway.
    AddIceCandidate { gateway_id: GatewayId, candidate: String },
    /// Give up the connection for a resource.
    CleanupConnection(ResourceId),
    /// Send a message to the portal.
    Send(EgressMessages),
    /// Send a message to the portal with a reference for the reply.
    SendWithRef(EgressMessages, MessageRef),
    /// Join a topic of the channel again.
    JoinTopic(String),
    /// Roll the log file over, then report the outcome to
    /// `ControlPlane::log_file_rolled`.
    RollLogFile { url: String },
    /// Upload the log file at `path` to `url`.
    UploadLogFile { path: String, url: String },
}

/// The state of the control plane.
#[derive(Debug)]
pub struct ControlPlane {
    /// Whether the device has been set up.
    pub tunnel_init: bool,
    /// The resources to add once the device has been set up.
    pub pending_resources: Vec<ResourceDescription>,
}

/// The system's resolvers as the platform reports them: none if the platform
/// fails or knows none.
pub open spec fn reported_resolvers(
    reported: Result<Option<Vec<IpAddress>>, Error>,
) -> Seq<IpAddress> {
    match reported {
        Ok(Some(resolvers)) => resolvers@,
        _ => Seq::empty(),
    }
}

/// The system's resolvers as the platform reports them.
fn resolvers_or_none(reported: Result<Option<Vec<IpAddress>>, Error>) -> (resolvers: Vec<
    IpAddress,
>)
    ensures
        resolvers@ == reported_resolvers(reported),
{
    match reported {
        Ok(Some(resolvers)) => resolvers,
        _ => Vec::new(),
    }
}

/// The commands that add each resource, in order.
fn add_resources(resources: Vec<ResourceDescription>) -> (commands: Vec<Command>)
    ensures
        commands@.len() == resources@.len(),
        forall|i: int|
            0 <= i < resources@.len() ==> #[trigger] commands@[i] == Command::AddResource(
                resources@[i],
            ),
{
    let mut commands: Vec<Command> = Vec::new();
    let ghost all = resources@;
    for resource in iter: resources
        invariant
            iter.seq() == all,
            commands@.len() == iter.index(),
            forall|i: int|
                0 <= i < commands@.len() ==> #[trigger] commands@[i] == Command::AddResource(all[i]),
    {
        commands.push(Command::AddResource(resource));
    }
    commands
}

/// Whether the commands are the one that sets the device up with
/// `interface` and with a sentinel for each of `servers`.
pub open spec fn sets_interface(
    commands: Seq<Command>,
    interface: Interface,
    servers: Seq<DnsServer>,
) -> bool {
    commands.len() == 1 && (commands[0] matches Command::SetInterface {
        interface: given,
        sentinel_mapping,
    } && given == interface && sentinel_mapping@ == sentinel_pairs(servers))
}

/// Whether the commands add each of the resources, in order.
pub open spec fn adds_resources(
    commands: Seq<Command>,
    resources: Seq<ResourceDescription>,
) -> bool {
    commands.len() == resources.len() && forall|i: int|
        0 <= i < resources.len() ==> #[trigger] commands[i] == Command::AddResource(resources[i])
}

/// Whether `after` and the commands are what the portal's first message
/// makes of the control plane `before`, with the resolvers that the system
/// reported: a device that is set up already stays as it is; one that is not
/// is to be set up for the servers in effect, and the resources wait.
pub open spec fn first_message_handled(
    before: ControlPlane,
    init: InitClient,
    resolvers: Seq<IpAddress>,
    after: ControlPlane,
    commands: Seq<Command>,
) -> bool {
    &&& after.tunnel_init == before.tunnel_init
    &&& if before.tunnel_init {
        commands.len() == 0 && after.pending_resources == before.pending_resources
    } else {
        &&& after.pending_resources == init.resources
        &&& sets_interface(
            commands,
            init.interface,
            effective_servers(init.interface.upstream_dns@, resolvers),
        )
    }
}

impl ControlPlane {
    /// A control plane whose device is not set up yet.
    pub fn new() -> (control: ControlPlane)
        ensures
            !control.tunnel_init,
            control.pending_resources@.len() == 0,
    {
        ControlPlane { tunnel_init: false, pending_resources: Vec::new() }
    }

    /// The first step of handling the portal's first message. If the device
    /// is not set up yet, it is to be set up with the interface that the
    /// portal assigns and with a sentinel for each DNS server in effect, and
    /// the resources wait for that; there have to be sentinels enough for
    /// the servers. A later first message is ignored, whatever it holds.
    pub fn init(
        &mut self,
        init: InitClient,
        default_resolvers: Result<Option<Vec<IpAddress>>, Error>,
    ) -> (commands: Vec<Command>)
        requires
            !old(self).tunnel_init ==> sentinels_suffice(
                effective_servers(
                    init.interface.upstream_dns@,
                    reported_resolvers(default_resolvers),
                ),
            ),
        ensures
            final(self).tunnel_init == old(self).tunnel_init,
            first_message_handled(
                *old(self),
                init,
                reported_resolvers(default_resolvers),
                *final(self),
                commands@,
            ),
    {
        let mut commands: Vec<Command> = Vec::new();
        if !self.tunnel_init {
            let InitClient { interface, resources } = init;
            let upstream_dns = clone_servers(&interface.upstream_dns);
            let effective_dns_servers = effective_dns_servers(
                upstream_dns,
                resolvers_or_none(default_resolvers),
            );
            let sentinel_mapping = sentinel_dns_mapping(effective_dns_servers.as_slice());
            commands.push(Command::SetInterface { interface, sentinel_mapping });
            self.pending_resources = resources;
        }
        commands
    }

    /// The second step of handling the portal's first message, once the
    /// device has or has not been set up. If it has, the control plane
    /// counts as set up and every waiting resource is added, in order. If it
    /// has not, the error is handed on. Either way no resource waits any
    /// longer.
    pub fn interface_set(
        &mut self,
        outcome: Result<(), Error>,
    ) -> (result: Result<Vec<Command>, Error>)
        ensures
            final(self).pending_resources@.len() == 0,
            match outcome {
                Ok(_) => final(self).tunnel_init && (result matches Ok(commands) && adds_resources(
                    commands@,
                    old(self).pending_resources@,
                )),
                Err(e) => final(self).tunnel_init == old(self).tunnel_init && result == Err::<
                    Vec<Command>,
                    Error,
                >(e),
            },
    {
        let mut resources: Vec<ResourceDescription> = Vec::new();
        std::mem::swap(&mut resources, &mut self.pending_resources);
        match outcome {
            Ok(_) => {
                self.tunnel_init = true;
                Ok(add_resources(resources))
            },
            Err(e) => Err(e),
        }
    }
}

/// A copy of a list of servers.
fn clone_servers(servers: &Vec<DnsServer>) -> (copy: Vec<DnsServer>)
    ensures
        copy@ == servers@,
{
    let mut copy: Vec<DnsServer> = Vec::new();
    let mut i: usize = 0;
    while i < servers.len()
        invariant
            i <= servers@.len(),
            copy@ == servers@.subrange(0, i as int),
        decreases servers@.len() - i,
    {
        copy.push(servers[i]);
        assert(copy@ =~= servers@.subrange(0, i + 1));
        i = i + 1;
    }
    assert(servers@.subrange(0, i as int) =~= servers@);
    copy
}

/// The content type under which the log file is uploaded.
pub const UPLOAD_CONTENT_TYPE: &'static str = "text/plain";

/// The encoding in which the log file is uploaded.
pub const UPLOAD_CONTENT_ENCODING: &'static str = "gzip";

/// Whether an HTTP status reports success.
pub open spec fn is_success(status: u16) -> bool {
    200 <= status < 300
}

/// What is said of an upload that the portal did not accept.
pub const UPLOAD_REFUSED: &'static str = "portal returned non-successful exit code";

/// The outcome of an upload that the portal answered with `status`: any
/// status outside 200 to 299 is an error.
pub fn check_upload_status(status: u16) -> (result: Result<(), Error>)
    ensures
        is_success(status) ==> result is Ok,
        !is_success(status) ==> (result matches Err(Error::Other(text)) && text@
            == UPLOAD_REFUSED@),
{
    if 200 <= status && status < 300 {
        Ok(())
    } else {
        Err(Error::Other(UPLOAD_REFUSED.to_string()))
    }
}

impl ControlPlane {
    /// What to do with a gateway's answer: an accepted connection goes to
    /// the tunnel as the answer to the offer, an accepted resource as the
    /// addresses resolved for it.
    pub fn connect(&self, connect: Connect) -> (command: Command)
        ensures
            match connect.gateway_payload {
                GatewayResponse::ConnectionAccepted(accepted) => command
                    == (Command::ReceivedOfferResponse {
                    resource_id: connect.resource_id,
                    ice_parameters: accepted.ice_parameters,
                    domain_response: accepted.domain_response,
                    gateway_public_key: connect.gateway_public_key,
                }),
                GatewayResponse::ResourceAccepted(accepted) => command
                    == (Command::ReceivedDomainParameters {
                    resource_id: connect.resource_id,
                    domain_response: accepted.domain_response,
                }),
            },
    {
        let Connect { gateway_payload, resource_id, gateway_public_key, .. } = connect;
        match gateway_payload {
            GatewayResponse::ConnectionAccepted(gateway_payload) => Command::ReceivedOfferResponse {
                resource_id,
                ice_parameters: gateway_payload.ice_parameters,
                domain_response: gateway_payload.domain_response,
                gateway_public_key,
            },
            GatewayResponse::ResourceAccepted(gateway_payload) => Command::ReceivedDomainParameters {
                resource_id,
                domain_response: gateway_payload.domain_response,
            },
        }
    }

    /// What to do with a resource that was created or has changed: tell the
    /// tunnel of it.
    pub fn add_resource(&self, resource_description: ResourceDescription) -> (command: Command)
        ensures
            command == Command::AddResource(resource_description),
    {
        Command::AddResource(resource_description)
    }

    /// What to do with a resource that was deleted: take it from the tunnel.
    pub fn resource_deleted(&self, id: ResourceId) -> (command: Command)
        ensures
            command == Command::RemoveResource(id),
    {
        Command::RemoveResource(id)
    }

    /// What to do with the details of a connection: ask the tunnel to
    /// connect.
    pub fn connection_details(
        &self,
        details: ConnectionDetails,
        reference: Option<String>,
    ) -> (command: Command)
        ensures
            command == (Command::RequestConnection {
                resource_id: details.resource_id,
                gateway_id: details.gateway_id,
                relays: details.relays,
                reference,
            }),
    {
        let ConnectionDetails { gateway_id, resource_id, relays, .. } = details;
        Command::RequestConnection { resource_id, gateway_id, relays, reference }
    }

    /// What to do once the tunnel has decided how to connect to a resource.
    /// A request for a new connection and a request to use one again both go
    /// to the portal, with the resource as reference. If the tunnel failed,
    /// the connection for the resource is given up.
    pub fn connection_requested(
        &self,
        resource_id: ResourceId,
        outcome: Result<Request, Error>,
    ) -> (command: Command)
        ensures
            match outcome {
                Ok(Request::NewConnection(request)) => command == Command::SendWithRef(
                    EgressMessages::RequestConnection(request),
                    MessageRef::Resource(resource_id),
                ),
                Ok(Request::ReuseConnection(request)) => command == Command::SendWithRef(
                    EgressMessages::ReuseConnection(request),
                    MessageRef::Resource(resource_id),
                ),
                Err(_) => command == Command::CleanupConnection(resource_id),
            },
    {
        match outcome {
            Ok(Request::NewConnection(connection_request)) => Command::SendWithRef(
                EgressMessages::RequestConnection(connection_request),
                MessageRef::Resource(resource_id),
            ),
            Ok(Request::ReuseConnection(connection_request)) => Command::SendWithRef(
                EgressMessages::ReuseConnection(connection_request),
                MessageRef::Resource(resource_id),
            ),
            Err(_) => Command::CleanupConnection(resource_id),
        }
    }

    /// What to do with the candidates of a gateway: hand each to the tunnel,
    /// in order.
    pub fn add_ice_candidate(&self, candidates: GatewayIceCandidates) -> (commands: Vec<Command>)
        ensures
            commands@.len() == candidates.candidates@.len(),
            forall|i: int|
                0 <= i < commands@.len() ==> #[trigger] commands@[i] == (Command::AddIceCandidate {
                    gateway_id: candidates.gateway_id,
                    candidate: candidates.candidates@[i],
                }),
    {
        let GatewayIceCandidates { gateway_id, candidates } = candidates;
        let mut commands: Vec<Command> = Vec::new();
        let ghost all = candidates@;
        for candidate in iter: candidates
            invariant
                iter.seq() == all,
                commands@.len() == iter.index(),
                forall|i: int|
                    0 <= i < commands@.len() ==> #[trigger] commands@[i]
                        == (Command::AddIceCandidate { gateway_id, candidate: all[i] }),
        {
            commands.push(Command::AddIceCandidate { gateway_id, candidate });
        }
        commands
    }

    /// What to do once the platform was asked to roll the log file over: if
    /// it did, the rolled file is uploaded; if not, nothing is done.
    pub fn log_file_rolled(&self, rolled: Option<String>, url: String) -> (command: Option<Command>)
        ensures
            command == match rolled {
                Some(path) => Some(Command::UploadLogFile { path, url }),
                None => None,
            },
    {
        match rolled {
            Some(path) => Some(Command::UploadLogFile { path, url }),
            None => None,
        }
    }

    /// What to do to get a place to upload the log to: ask the portal.
    pub fn request_log_upload_url(&self) -> (command: Command)
        ensures
            command == Command::Send(EgressMessages::CreateLogSink),
    {
        Command::Send(EgressMessages::CreateLogSink)
    }
}

/// What a message of the portal calls for, but for the first message, which
/// `sets_interface` describes.
pub open spec fn message_calls_for(
    commands: Seq<Command>,
    msg: Messages,
    reference: Option<String>,
) -> bool {
    match msg {
        Messages::Init(_) => true,
        Messages::ConfigChanged(_) => commands.len() == 0,
        Messages::ConnectionDetails(details) => commands == seq![
            Command::RequestConnection {
                resource_id: details.resource_id,
                gateway_id: details.gateway_id,
                relays: details.relays,
                reference,
            },
        ],
        Messages::Connect(connect) => commands.len() == 1 && match connect.gateway_payload {
            GatewayResponse::ConnectionAccepted(accepted) => commands[0]
                == (Command::ReceivedOfferResponse {
                resource_id: connect.resource_id,
                ice_parameters: accepted.ice_parameters,
                domain_response: accepted.domain_response,
                gateway_public_key: connect.gateway_public_key,
            }),
            GatewayResponse::ResourceAccepted(accepted) => commands[0]
                == (Command::ReceivedDomainParameters {
                resource_id: connect.resource_id,
                domain_response: accepted.domain_response,
            }),
        },
        Messages::ResourceCreatedOrUpdated(resource) => commands == seq![
            Command::AddResource(resource),
        ],
        Messages::ResourceDeleted(resource) => commands == seq![Command::RemoveResource(resource.0)],
        Messages::IceCandidates(candidates) => commands.len() == candidates.candidates@.len()
            && forall|i: int|
            0 <= i < commands.len() ==> #[trigger] commands[i] == (Command::AddIceCandidate {
                gateway_id: candidates.gateway_id,
                candidate: candidates.candidates@[i],
            }),
        Messages::SignedLogUrl(url) => commands == seq![Command::RollLogFile { url }],
    }
}

/// What an error of the channel calls for.
///
/// A resource reported offline has its connection given up, if the
/// reference names a resource. A topic that does not match is joined again.
/// An expired token and a connection closed by the portal end the session.
/// Nothing else calls for anything.
pub open spec fn error_calls_for(
    reply_error: ChannelError,
    reference: Option<String>,
    topic: String,
) -> Result<Seq<Command>, Error> {
    match reply_error {
        ChannelError::ErrorReply(ErrorInfo::Offline) => match reference {
            Some(text) => match uuid_from_text(text@) {
                Some(id) => Ok(seq![Command::CleanupConnection(ResourceId(id))]),
                None => Ok(Seq::empty()),
            },
            None => Ok(Seq::empty()),
        },
        ChannelError::ErrorReply(ErrorInfo::Reason(Reason::Known(KnownError::UnmatchedTopic))) => Ok(
            seq![Command::JoinTopic(topic)],
        ),
        ChannelError::ErrorReply(ErrorInfo::Reason(Reason::Known(KnownError::TokenExpired))) => Err(
            Error::ClosedByPortal,
        ),
        ChannelError::ErrorMsg(Error::ClosedByPortal) => Err(Error::ClosedByPortal),
        _ => Ok(Seq::empty()),
    }
}

/// The list of one command.
fn one(command: Command) -> (commands: Vec<Command>)
    ensures
        commands@ == seq![command],
{
    let mut commands: Vec<Command> = Vec::new();
    commands.push(command);
    commands
}

impl ControlPlane {
    /// What to do about a message of the portal.
    ///
    /// The first message sets the device up as `init` says. Details of a
    /// connection have the tunnel asked to connect. A gateway's answer goes
    /// to the tunnel. A resource created or changed is added, a resource
    /// deleted is taken away. Candidates go to the tunnel one by one. A
    /// place to upload the log to has the log file rolled over first. A
    /// changed configuration calls for nothing.
    pub fn handle_message(
        &mut self,
        msg: Messages,
        reference: Option<String>,
        default_resolvers: Result<Option<Vec<IpAddress>>, Error>,
    ) -> (commands: Vec<Command>)
        requires
            !old(self).tunnel_init ==> (msg matches Messages::Init(init) ==> sentinels_suffice(
                effective_servers(
                    init.interface.upstream_dns@,
                    reported_resolvers(default_resolvers),
                ),
            )),
        ensures
            final(self).tunnel_init == old(self).tunnel_init,
            message_calls_for(commands@, msg, reference),
            !(msg is Init) ==> final(self).pending_resources == old(self).pending_resources,
            msg matches Messages::Init(init) ==> first_message_handled(
                *old(self),
                init,
                reported_resolvers(default_resolvers),
                *final(self),
                commands@,
            ),
    {
        match msg {
            Messages::Init(init) => self.init(init, default_resolvers),
            Messages::ConfigChanged(_update) => Vec::new(),
            Messages::ConnectionDetails(connection_details) => one(
                self.connection_details(connection_details, reference),
            ),
            Messages::Connect(connect) => one(self.connect(connect)),
            Messages::ResourceCreatedOrUpdated(resource) => one(self.add_resource(resource)),
            Messages::ResourceDeleted(resource) => one(self.resource_deleted(resource.0)),
            Messages::IceCandidates(ice_candidate) => self.add_ice_candidate(ice_candidate),
            Messages::SignedLogUrl(url) => one(Command::RollLogFile { url }),
        }
    }

    /// What to do about an error of the channel. An error returned means
    /// that the client has to disconnect.
    pub fn handle_error(
        &self,
        reply_error: ChannelError,
        reference: Option<String>,
        topic: String,
    ) -> (result: Result<Vec<Command>, Error>)
        ensures
            match error_calls_for(reply_error, reference, topic) {
                Ok(commands) => result matches Ok(given) && given@ == commands,
                Err(_) => result matches Err(Error::ClosedByPortal),
            },
    {
        match (reply_error, reference) {
            (ChannelError::ErrorReply(ErrorInfo::Offline), Some(reference)) => {
                match ResourceId::parse(reference.as_str()) {
                    Some(resource_id) => Ok(one(Command::CleanupConnection(resource_id))),
                    None => Ok(Vec::new()),
                }
            },
            (
                ChannelError::ErrorReply(ErrorInfo::Reason(Reason::Known(KnownError::UnmatchedTopic))),
                _,
            ) => Ok(one(Command::JoinTopic(topic))),
            (
                ChannelError::ErrorReply(ErrorInfo::Reason(Reason::Known(KnownError::TokenExpired))),
                _,
            ) => Err(Error::ClosedByPortal),
            (ChannelError::ErrorMsg(Error::ClosedByPortal), _) => Err(Error::ClosedByPortal),
            _ => Ok(Vec::new()),
        }
    }

    /// What to do about an event of the tunnel.
    ///
    /// A candidate is sent to the gateway of its connection. An intent to
    /// connect has the portal asked to prepare the connection, with the
    /// intent's number as reference. Connections to refresh are each asked
    /// for again, with their resource as reference. A stopped peer and a
    /// failure of the tunnel call for nothing. A packet for the device never
    /// comes this way.
    pub fn handle_tunnel_event(
        &self,
        event: Result<Event<GatewayId>, Error>,
    ) -> (commands: Vec<Command>)
        requires
            !(event matches Ok(Event::SendPacket(_))),
        ensures
            match event {
                Ok(Event::SignalIceCandidate { conn_id, candidate }) => commands@.len() == 1 && (
                commands@[0] matches Command::Send(EgressMessages::BroadcastIceCandidates(sent))
                    && sent.gateway_ids@ == seq![conn_id] && sent.candidates@ == seq![candidate]),
                Ok(Event::ConnectionIntent { resource, connected_gateway_ids, reference }) => commands@
                    == seq![
                    Command::SendWithRef(
                        EgressMessages::PrepareConnection {
                            resource_id: resource.spec_id(),
                            connected_gateway_ids,
                        },
                        MessageRef::Intent(reference),
                    ),
                ],
                Ok(Event::RefreshResources { connections }) => commands@.len()
                    == connections@.len() && forall|i: int|
                    0 <= i < commands@.len() ==> #[trigger] commands@[i] == Command::SendWithRef(
                        EgressMessages::ReuseConnection(connections@[i]),
                        MessageRef::Resource(connections@[i].resource_id),
                    ),
                _ => commands@.len() == 0,
            },
    {
        match event {
            Ok(Event::SignalIceCandidate { conn_id, candidate }) => {
                let mut gateway_ids: Vec<GatewayId> = Vec::new();
                gateway_ids.push(conn_id);
                let mut candidates: Vec<String> = Vec::new();
                candidates.push(candidate);
                one(
                    Command::Send(
                        EgressMessages::BroadcastIceCandidates(
                            BroadcastGatewayIceCandidates { gateway_ids, candidates },
                        ),
                    ),
                )
            },
            Ok(Event::ConnectionIntent { resource, connected_gateway_ids, reference }) => one(
                Command::SendWithRef(
                    EgressMessages::PrepareConnection {
                        resource_id: resource.id(),
                        connected_gateway_ids,
                    },
                    MessageRef::Intent(reference),
                ),
            ),
            Ok(Event::RefreshResources { connections }) => {
                let mut commands: Vec<Command> = Vec::new();
                let ghost all = connections@;
                for connection in iter: connections
                    invariant
                        iter.seq() == all,
                        commands@.len() == iter.index(),
                        forall|i: int|
                            0 <= i < commands@.len() ==> #[trigger] commands@[i]
                                == Command::SendWithRef(
                                EgressMessages::ReuseConnection(all[i]),
                                MessageRef::Resource(all[i].resource_id),
                            ),
                {
                    let resource_id = connection.resource_id;
                    commands.push(
                        Command::SendWithRef(
                            EgressMessages::ReuseConnection(connection),
                            MessageRef::Resource(resource_id),
                        ),
                    );
                }
                commands
            },
            Ok(Event::StopPeer(_)) => Vec::new(),
            Ok(Event::SendPacket(_)) => Vec::new(),
            Err(_) => Vec::new(),
        }
    }
}

} // verus!
