//! Configuration of endpoints and connections.

use iroh::endpoint::Builder;
use iroh::tls::CaTlsConfig;
use iroh::{EndpointAddr, EndpointId, RelayMode, SecretKey};
use vstd::prelude::*;

verus! {

/// The relay servers that an endpoint uses.
#[verifier::external_type_specification]
pub struct ExRelayMode(iroh::RelayMode);

/// A map of relay servers.
#[verifier::external_type_specification]
#[verifier::external_body]
pub struct ExRelayMap(iroh::RelayMap);

/// The secret key of an endpoint.
#[verifier::external_type_specification]
#[verifier::external_body]
pub struct ExSecretKey(iroh::SecretKey);

/// How the certificates of relays are verified.
#[verifier::external_type_specification]
#[verifier::external_body]
pub struct ExCaTlsConfig(iroh::tls::CaTlsConfig);

/// A builder of endpoints.
#[verifier::external_type_specification]
#[verifier::external_body]
pub struct ExBuilder(iroh::endpoint::Builder);

/// The identity of an endpoint, and where it can be reached.
#[verifier::external_type_specification]
#[verifier::external_body]
pub struct ExEndpointAddr(iroh::EndpointAddr);

/// What `Builder::secret_key` makes of a builder.
pub uninterp spec fn with_secret_key(builder: Builder, secret_key: SecretKey) -> Builder;

/// What `Builder::alpns` makes of a builder.
pub uninterp spec fn with_alpns(builder: Builder, alpns: Seq<Seq<u8>>) -> Builder;

/// What `Builder::relay_mode` makes of a builder.
pub uninterp spec fn with_relay_mode(builder: Builder, relay_mode: RelayMode) -> Builder;

/// What `Builder::ca_tls_config` makes of a builder.
pub uninterp spec fn with_ca_tls_config(builder: Builder, ca_tls_config: CaTlsConfig) -> Builder;

/// `iroh::endpoint::Builder::secret_key`: the builder with that secret key.
#[verifier::external_body]
fn set_secret_key(builder: Builder, secret_key: SecretKey) -> (r: Builder)
    ensures
        r == with_secret_key(builder, secret_key),
{
    builder.secret_key(secret_key)
}

/// `iroh::endpoint::Builder::alpns`: the builder with these protocols.
#[verifier::external_body]
fn set_alpns(builder: Builder, alpns: Vec<Vec<u8>>) -> (r: Builder)
    ensures
        r == with_alpns(builder, alpns.deep_view()),
{
    builder.alpns(alpns)
}

/// `iroh::endpoint::Builder::relay_mode`: the builder with these relay servers.
#[verifier::external_body]
fn set_relay_mode(builder: Builder, relay_mode: RelayMode) -> (r: Builder)
    ensures
        r == with_relay_mode(builder, relay_mode),
{
    builder.relay_mode(relay_mode)
}

/// `iroh::endpoint::Builder::ca_tls_config`: the builder with that way to verify
/// certificates.
#[verifier::external_body]
fn set_ca_tls_config(builder: Builder, ca_tls_config: CaTlsConfig) -> (r: Builder)
    ensures
        r == with_ca_tls_config(builder, ca_tls_config),
{
    builder.ca_tls_config(ca_tls_config)
}

/// `iroh::SecretKey::generate`: a random key.
#[verifier::external_body]
fn generate_secret_key() -> (r: SecretKey) {
    SecretKey::generate()
}

/// `<iroh::SecretKey as Clone>::clone`: the same key.
pub assume_specification[ <SecretKey as Clone>::clone ](key: &SecretKey) -> (r: SecretKey)
    ensures
        r == *key,
;

/// `<iroh::RelayMode as Clone>::clone`: the same mode.
pub assume_specification[ <RelayMode as Clone>::clone ](mode: &RelayMode) -> (r: RelayMode)
    ensures
        r == *mode,
;

/// `<iroh::tls::CaTlsConfig as Clone>::clone`: the same configuration.
pub assume_specification[ <CaTlsConfig as Clone>::clone ](config: &CaTlsConfig) -> (r: CaTlsConfig)
    ensures
        r == *config,
;

/// `<iroh::EndpointAddr as Clone>::clone`: the same address.
pub assume_specification[ <EndpointAddr as Clone>::clone ](addr: &EndpointAddr) -> (r: EndpointAddr)
    ensures
        r == *addr,
;

/// Shared configuration for an iroh endpoint.
pub struct IrohEndpointConfig {
    /// Relay servers to use.
    pub relay_mode: RelayMode,
    /// ALPN protocols to accept on incoming connections (required for servers).
    pub alpns: Vec<Vec<u8>>,
    /// Optional secret key. Auto-generated if `None`.
    pub secret_key: Option<SecretKey>,
    /// Optional TLS CA configuration for verifying relay connections.
    pub ca_tls_config: Option<CaTlsConfig>,
}

impl IrohEndpointConfig {
    /// The configuration has the default relay servers, and nothing else is set.
    pub open spec fn is_default(self) -> bool {
        &&& self.relay_mode == RelayMode::Default
        &&& self.alpns@ == Seq::<Vec<u8>>::empty()
        &&& self.secret_key is None
        &&& self.ca_tls_config is None
    }
}

impl Default for IrohEndpointConfig {
    fn default() -> (r: Self)
        ensures
            r.is_default(),
    {
        IrohEndpointConfig {
            relay_mode: RelayMode::Default,
            alpns: Vec::new(),
            secret_key: None,
            ca_tls_config: None,
        }
    }
}

/// Copies protocol names.
fn copy_alpns(alpns: &Vec<Vec<u8>>) -> (r: Vec<Vec<u8>>)
    ensures
        r.deep_view() == alpns.deep_view(),
{
    let mut copy: Vec<Vec<u8>> = Vec::new();
    let mut i: usize = 0;
    while i < alpns.len()
        invariant
            i <= alpns@.len(),
            copy@.len() == i,
            forall|j: int| 0 <= j < i ==> (#[trigger] copy@[j])@ == alpns@[j]@,
        decreases alpns@.len() - i,
    {
        let alpn = alpns[i].clone();
        assert(alpn@ =~= alpns@[i as int]@);
        copy.push(alpn);
        i = i + 1;
    }
    assert(copy.deep_view() =~= alpns.deep_view()) by {
        assert forall|j: int| 0 <= j < copy@.len() implies copy.deep_view()[j]
            == alpns.deep_view()[j] by {
            assert(copy@[j]@ == alpns@[j]@);
            assert(copy@[j].deep_view() =~= alpns@[j].deep_view());
        }
    }
    copy
}

impl IrohEndpointConfig {
    /// `secret_key` is one that an endpoint of this configuration can have: any
    /// key, if none is configured.
    pub open spec fn resolves_to(self, secret_key: SecretKey) -> bool {
        self.secret_key is None || self.secret_key == Some(secret_key)
    }

    /// A builder once it was told this configuration.
    pub open spec fn applied(self, builder: Builder, secret_key: SecretKey) -> Builder {
        let told = with_relay_mode(
            with_alpns(with_secret_key(builder, secret_key), self.alpns.deep_view()),
            self.relay_mode,
        );
        match self.ca_tls_config {
            Some(config) => with_ca_tls_config(told, config),
            None => told,
        }
    }

    /// Apply this config to an iroh builder, returning it ready to bind.
    pub fn apply_to_builder(&self, builder: Builder) -> (r: Builder)
        ensures
            exists|secret_key: SecretKey| #[trigger]
                self.resolves_to(secret_key) && r == self.applied(builder, secret_key),
    {
        let secret_key = self.resolve_secret_key();
        assert(self.resolves_to(secret_key));
        let builder = set_secret_key(builder, secret_key);
        let builder = set_alpns(builder, copy_alpns(&self.alpns));
        let builder = set_relay_mode(builder, self.relay_mode.clone());
        match &self.ca_tls_config {
            Some(config) => set_ca_tls_config(builder, config.clone()),
            None => builder,
        }
    }

    /// Resolve the secret key (use provided or generate random).
    pub fn resolve_secret_key(&self) -> (r: SecretKey)
        ensures
            self.resolves_to(r),
    {
        match &self.secret_key {
            Some(secret_key) => secret_key.clone(),
            None => generate_secret_key(),
        }
    }
}

/// Client endpoint configuration.
pub struct IrohClientConfig {
    /// Endpoint configuration.
    pub endpoint: IrohEndpointConfig,
}

impl Default for IrohClientConfig {
    fn default() -> (r: Self)
        ensures
            r.endpoint.is_default(),
    {
        IrohClientConfig { endpoint: IrohEndpointConfig::default() }
    }
}

/// Server endpoint configuration.
pub struct IrohServerConfig {
    /// Endpoint configuration.
    pub endpoint: IrohEndpointConfig,
}

impl Default for IrohServerConfig {
    fn default() -> (r: Self)
        ensures
            r.endpoint.is_default(),
    {
        IrohServerConfig { endpoint: IrohEndpointConfig::default() }
    }
}

/// What the configuration of a connection amounts to.
pub struct IrohClientConnectionConfigView {
    /// The host to connect to.
    pub server_id: EndpointId,
    /// The protocol of the connection.
    pub alpn: Seq<u8>,
    /// Where the host is, if that is known.
    pub endpoint_addr: Option<EndpointAddr>,
}

/// Configuration for a client's connection to a host.
#[derive(Debug)]
pub struct IrohClientConnectionConfig {
    /// The host's id (public key) to connect to.
    pub server_id: EndpointId,
    /// ALPN protocol for this connection.
    pub alpn: Vec<u8>,
    /// Optional direct address. If known, no address lookup is needed.
    pub endpoint_addr: Option<EndpointAddr>,
}

impl View for IrohClientConnectionConfig {
    type V = IrohClientConnectionConfigView;

    open spec fn view(&self) -> IrohClientConnectionConfigView {
        IrohClientConnectionConfigView {
            server_id: self.server_id,
            alpn: self.alpn@,
            endpoint_addr: self.endpoint_addr,
        }
    }
}

impl Clone for IrohClientConnectionConfig {
    fn clone(&self) -> (r: Self)
        ensures
            r@ == self@,
    {
        let alpn = self.alpn.clone();
        assert(alpn@ =~= self.alpn@);
        IrohClientConnectionConfig {
            server_id: self.server_id,
            alpn,
            endpoint_addr: match &self.endpoint_addr {
                Some(addr) => Some(addr.clone()),
                None => None,
            },
        }
    }
}

/// A builder is told all that is configured, and nothing else: the key that is
/// configured, or else some key, all protocols in order, the relay servers, and the CA
/// configuration where there is one.
pub proof fn law_apply_to_builder(config: IrohEndpointConfig, builder: Builder, r: Builder)
    requires
        call_ensures(IrohEndpointConfig::apply_to_builder, (&config, builder), r),
    ensures
        exists|key: SecretKey|
            {
                &&& config.secret_key matches Some(configured) ==> key == configured
                &&& r == match config.ca_tls_config {
                    Some(ca) => with_ca_tls_config(
                        with_relay_mode(
                            with_alpns(
                                #[trigger] with_secret_key(builder, key),
                                Seq::new(config.alpns@.len(), |i: int| config.alpns@[i]@),
                            ),
                            config.relay_mode,
                        ),
                        ca,
                    ),
                    None => with_relay_mode(
                        with_alpns(
                            with_secret_key(builder, key),
                            Seq::new(config.alpns@.len(), |i: int| config.alpns@[i]@),
                        ),
                        config.relay_mode,
                    ),
                }
            },
{
    let key = choose|secret_key: SecretKey| #[trigger]
        config.resolves_to(secret_key) && r == config.applied(builder, secret_key);
    let alpns = Seq::new(config.alpns@.len(), |i: int| config.alpns@[i]@);
    assert forall|i: int| 0 <= i < alpns.len() implies alpns[i]
        == #[trigger] config.alpns.deep_view()[i] by {
        assert(config.alpns@[i].deep_view() =~= config.alpns@[i]@);
    }
    assert(alpns =~= config.alpns.deep_view());
    assert(with_secret_key(builder, key) == with_secret_key(builder, key));
}

/// A key that is configured is the one that is used. By default the default relay
/// servers are used, no protocol is accepted, and nothing else is set. A copy of the
/// configuration of a connection is the same configuration.
pub proof fn law_configuration(config: IrohEndpointConfig, connection: IrohClientConnectionConfig)
    ensures
        forall|key: SecretKey| #[trigger]
            call_ensures(IrohEndpointConfig::resolve_secret_key, (&config,), key)
                && config.secret_key is Some ==> config.secret_key == Some(key),
        forall|r: IrohEndpointConfig| #[trigger]
            call_ensures(IrohEndpointConfig::default, (), r) ==> r.relay_mode == RelayMode::Default
                && r.alpns@.len() == 0 && r.secret_key is None && r.ca_tls_config is None,
        forall|r: IrohClientConfig| #[trigger]
            call_ensures(IrohClientConfig::default, (), r) ==> r.endpoint.relay_mode
                == RelayMode::Default && r.endpoint.alpns@.len() == 0
                && r.endpoint.secret_key is None && r.endpoint.ca_tls_config is None,
        forall|r: IrohServerConfig| #[trigger]
            call_ensures(IrohServerConfig::default, (), r) ==> r.endpoint.relay_mode
                == RelayMode::Default && r.endpoint.alpns@.len() == 0
                && r.endpoint.secret_key is None && r.endpoint.ca_tls_config is None,
        forall|r: IrohClientConnectionConfig| #[trigger]
            call_ensures(IrohClientConnectionConfig::clone, (&connection,), r) ==> r.server_id
                == connection.server_id && r.alpn@ == connection.alpn@ && r.endpoint_addr
                == connection.endpoint_addr,
        connection@.server_id == connection.server_id,
        connection@.alpn == connection.alpn@,
        connection@.endpoint_addr == connection.endpoint_addr,
{
}

} // verus!
