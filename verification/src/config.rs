//! Relay configuration: the three values the process needs before it may
//! serve any traffic, and the validation that makes their absence fatal.

use vstd::prelude::*;

verus! {

/// The relay's configuration record. [`load_config`] builds one from the
/// environment's values and guarantees [`Configuration::wf`]: every field
/// present and non-empty.
pub struct Configuration {
    /// OAuth client identifier, sent verbatim to the provider.
    pub client_id: Vec<u8>,
    /// OAuth client secret, sent verbatim to the provider.
    pub client_secret: Vec<u8>,
    /// The provider's token-endpoint URL.
    pub token_endpoint: Vec<u8>,
}

impl Configuration {
    /// All required values are present and non-empty.
    pub open spec fn wf(self) -> bool {
        &&& self.client_id@.len() > 0
        &&& self.client_secret@.len() > 0
        &&& self.token_endpoint@.len() > 0
    }
}

/// Failure to assemble a `Configuration`: at least one required value was
/// absent or empty. At startup this is fatal; inside the request path it is
/// reported through the configured failure policy instead.
pub enum ConfigError {
    MissingValue,
}

impl ConfigError {
    /// The fatal startup message, naming all three required environment
    /// variables so that an operator can tell at once what to set.
    pub fn message(&self) -> (r: String)
        ensures
            r@ == "Lynx needs CLIENT_ID, CLIENT_SECRET, and GITHUB_BASE environment variables set"@,
    {
        String::from_str("Lynx needs CLIENT_ID, CLIENT_SECRET, and GITHUB_BASE environment variables set")
    }
}

/// A supplied value counts only when it is present and non-empty.
pub open spec fn value_given(v: Option<Vec<u8>>) -> bool {
    v matches Some(s) && s@.len() > 0
}

/// Builds the relay's configuration from the three environment values,
/// handed in as plain optional byte strings. Succeeds exactly when all
/// three are present and non-empty, and then carries them through verbatim.
pub fn load_config(
    client_id: Option<Vec<u8>>,
    client_secret: Option<Vec<u8>>,
    token_endpoint: Option<Vec<u8>>,
) -> (r: Result<Configuration, ConfigError>)
    ensures
        r is Ok <==> value_given(client_id) && value_given(client_secret) && value_given(
            token_endpoint,
        ),
        r matches Ok(cfg) ==> {
            &&& cfg.wf()
            &&& cfg.client_id@ == client_id->Some_0@
            &&& cfg.client_secret@ == client_secret->Some_0@
            &&& cfg.token_endpoint@ == token_endpoint->Some_0@
        },
        r matches Err(e) ==> e is MissingValue,
{
    match (client_id, client_secret, token_endpoint) {
        (Some(client_id), Some(client_secret), Some(token_endpoint)) => {
            if client_id.len() > 0 && client_secret.len() > 0 && token_endpoint.len() > 0 {
                Ok(Configuration { client_id, client_secret, token_endpoint })
            } else {
                Err(ConfigError::MissingValue)
            }
        },
        _ => Err(ConfigError::MissingValue),
    }
}

} // verus!
