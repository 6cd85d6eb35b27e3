//! The messages that the client and the portal exchange, and the requests
//! that the tunnel makes of the portal.

use crate::error::Error;
use crate::ip::IpAddress;
use crate::name::DomainName;
use crate::resources::{GatewayId, ResourceDescription, ResourceId};
use crate::sentinel::{DnsServer, SocketAddress};
use vstd::prelude::*;

verus! {

/// A key of the encrypted channel.
#[derive(Debug)]
pub struct Key(pub [u8; 32]);

/// What identifies one side of a connection towards the other while the
/// connection is set up.
#[derive(Debug)]
pub struct IceParameters {
    pub username: String,
    pub password: String,
}

/// The interface that the portal assigns to the client.
#[derive(Debug)]
pub struct Interface {
    pub ipv4: u32,
    pub ipv6: u128,
    pub upstream_dns: Vec<DnsServer>,
}

/// The first message of the portal: the interface and the resources.
#[derive(Debug)]
pub struct InitClient {
    pub interface: Interface,
    pub resources: Vec<ResourceDescription>,
}

/// A changed configuration.
#[derive(Debug)]
pub struct ConfigUpdate {
    pub interface: Interface,
}

/// A server that helps two peers find a path to each other.
#[derive(Debug)]
pub enum Relay {
    Stun { addr: SocketAddress },
    Turn { expires_at: u64, addr: SocketAddress, username: String, password: String },
}

/// Where to connect for a resource.
#[derive(Debug)]
pub struct ConnectionDetails {
    pub relays: Vec<Relay>,
    pub resource_id: ResourceId,
    pub gateway_id: GatewayId,
    pub gateway_remote_ip: IpAddress,
}

/// The addresses that a gateway resolved a name to.
#[derive(Debug)]
pub struct DomainResponse {
    pub domain: DomainName,
    pub address: Vec<IpAddress>,
}

/// A gateway accepts a new connection.
#[derive(Debug)]
pub struct ConnectionAccepted {
    pub ice_parameters: IceParameters,
    pub domain_response: Option<DomainResponse>,
}

/// A gateway accepts a resource on a connection that exists.
#[derive(Debug)]
pub struct ResourceAccepted {
    pub domain_response: DomainResponse,
}

/// A gateway's answer to a request.
#[derive(Debug)]
pub enum GatewayResponse {
    ConnectionAccepted(ConnectionAccepted),
    ResourceAccepted(ResourceAccepted),
}

/// A gateway's answer, as the portal passes it on.
#[derive(Debug)]
pub struct Connect {
    pub gateway_payload: GatewayResponse,
    pub resource_id: ResourceId,
    pub gateway_public_key: Key,
    pub persistent_keepalive: u64,
}

/// Candidates of a gateway for a path to it.
#[derive(Debug)]
pub struct GatewayIceCandidates {
    pub gateway_id: GatewayId,
    pub candidates: Vec<String>,
}

/// Candidates of the client for the gateways named.
#[derive(Debug)]
pub struct BroadcastGatewayIceCandidates {
    pub gateway_ids: Vec<GatewayId>,
    pub candidates: Vec<String>,
}

/// A resource that is no more.
#[derive(Debug)]
pub struct RemoveResource(pub ResourceId);

/// What the portal sends.
#[derive(Debug)]
pub enum Messages {
    Init(InitClient),
    ConnectionDetails(ConnectionDetails),
    Connect(Connect),
    ResourceCreatedOrUpdated(ResourceDescription),
    ResourceDeleted(RemoveResource),
    IceCandidates(GatewayIceCandidates),
    SignedLogUrl(String),
    ConfigChanged(ConfigUpdate),
}

/// What the client offers a gateway for a new connection.
#[derive(Debug)]
pub struct ClientPayload {
    pub ice_parameters: IceParameters,
    pub domain: Option<DomainName>,
}

/// The request for a new connection to a gateway.
#[derive(Debug)]
pub struct RequestConnection {
    pub gateway_id: GatewayId,
    pub resource_id: ResourceId,
    pub client_preshared_key: Key,
    pub client_payload: ClientPayload,
}

/// The request to use a connection that exists for one more resource.
#[derive(Debug)]
pub struct ReuseConnection {
    pub resource_id: ResourceId,
    pub gateway_id: GatewayId,
    pub payload: Option<DomainName>,
}

/// What the tunnel decides when asked to connect to a resource.
#[derive(Debug)]
pub enum Request {
    NewConnection(RequestConnection),
    ReuseConnection(ReuseConnection),
}

/// What the client sends.
#[derive(Debug)]
pub enum EgressMessages {
    PrepareConnection { resource_id: ResourceId, connected_gateway_ids: Vec<GatewayId> },
    CreateLogSink,
    RequestConnection(RequestConnection),
    ReuseConnection(ReuseConnection),
    BroadcastIceCandidates(BroadcastGatewayIceCandidates),
}

/// What a message of the client refers to, so that the reply can be told.
#[derive(Clone, Copy, Debug, PartialEq, Eq, Structural)]
pub enum MessageRef {
    /// The resource that the message is about.
    Resource(ResourceId),
    /// The number of the intent that the message follows.
    Intent(usize),
}

/// An error that the portal names.
#[derive(Clone, Copy, Debug, PartialEq, Eq, Structural)]
pub enum KnownError {
    UnmatchedTopic,
    TokenExpired,
}

/// The reason that the portal gives for an error.
#[derive(Debug)]
pub enum Reason {
    Known(KnownError),
    Unknown(String),
}

/// What the portal says in place of a reply.
#[derive(Debug)]
pub enum ErrorInfo {
    Reason(Reason),
    Offline,
    Disabled,
}

/// An error on the channel to the portal.
#[derive(Debug)]
pub enum ChannelError {
    ErrorReply(ErrorInfo),
    ErrorMsg(Error),
}

} // verus!
