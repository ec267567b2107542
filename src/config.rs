//! The process configuration, from named values.

use vstd::prelude::*;

verus! {

/// The bucket when none is configured.
pub const DEFAULT_BUCKET: &'static str = "brainpile";

/// The configuration of the service.
#[derive(Debug, Clone)]
pub struct Config {
    pub database_url: String,
    pub s3_endpoint: String,
    pub s3_public_endpoint: String,
    pub s3_access_key: String,
    pub s3_secret_key: String,
    pub s3_bucket: String,
    pub clip_api_url: String,
    pub vlm_api_base: String,
    pub vlm_api_key: String,
    pub vlm_model: String,
    pub embedding_api_base: String,
    pub embedding_api_key: String,
    pub embedding_model: String,
    pub tg_bot_token: String,
}

/// A configuration variable that must be set.
#[derive(Debug, Clone, Copy, PartialEq, Eq, Structural)]
pub enum ConfigVar {
    DatabaseUrl,
    S3Endpoint,
    S3PublicEndpoint,
    S3AccessKey,
    S3SecretKey,
    ClipApiUrl,
    VlmApiBase,
    VlmApiKey,
    VlmModel,
    EmbeddingApiBase,
    EmbeddingApiKey,
    EmbeddingModel,
    TgBotToken,
}

impl ConfigVar {
    /// The environment name of the variable.
    pub fn name(&self) -> &'static str {
        match self {
            ConfigVar::DatabaseUrl => "DATABASE_URL",
            ConfigVar::S3Endpoint => "S3_ENDPOINT",
            ConfigVar::S3PublicEndpoint => "S3_PUBLIC_ENDPOINT",
            ConfigVar::S3AccessKey => "S3_ACCESS_KEY",
            ConfigVar::S3SecretKey => "S3_SECRET_KEY",
            ConfigVar::ClipApiUrl => "CLIP_API_URL",
            ConfigVar::VlmApiBase => "VLM_API_BASE",
            ConfigVar::VlmApiKey => "VLM_API_KEY",
            ConfigVar::VlmModel => "VLM_MODEL",
            ConfigVar::EmbeddingApiBase => "EMBEDDING_API_BASE",
            ConfigVar::EmbeddingApiKey => "EMBEDDING_API_KEY",
            ConfigVar::EmbeddingModel => "EMBEDDING_MODEL",
            ConfigVar::TgBotToken => "TG_BOT_TOKEN",
        }
    }
}

/// The first required variable that is not set, given which of the first
/// twelve are (the last, the bot token, when all of them are).
pub open spec fn first_missing(
    database_url: bool,
    s3_endpoint: bool,
    s3_public_endpoint: bool,
    s3_access_key: bool,
    s3_secret_key: bool,
    clip_api_url: bool,
    vlm_api_base: bool,
    vlm_api_key: bool,
    vlm_model: bool,
    embedding_api_base: bool,
    embedding_api_key: bool,
    embedding_model: bool,
) -> ConfigVar {
    if !database_url { ConfigVar::DatabaseUrl }
    else if !s3_endpoint { ConfigVar::S3Endpoint }
    else if !s3_public_endpoint { ConfigVar::S3PublicEndpoint }
    else if !s3_access_key { ConfigVar::S3AccessKey }
    else if !s3_secret_key { ConfigVar::S3SecretKey }
    else if !clip_api_url { ConfigVar::ClipApiUrl }
    else if !vlm_api_base { ConfigVar::VlmApiBase }
    else if !vlm_api_key { ConfigVar::VlmApiKey }
    else if !vlm_model { ConfigVar::VlmModel }
    else if !embedding_api_base { ConfigVar::EmbeddingApiBase }
    else if !embedding_api_key { ConfigVar::EmbeddingApiKey }
    else if !embedding_model { ConfigVar::EmbeddingModel }
    else { ConfigVar::TgBotToken }
}

/// The value, or the variable that is missing.
fn required(v: Option<String>, var: ConfigVar) -> (r: Result<String, ConfigVar>)
    ensures
        match v {
            Some(s) => r == Ok::<String, ConfigVar>(s),
            None => r == Err::<String, ConfigVar>(var),
        },
{
    match v {
        Some(s) => Ok(s),
        None => Err(var),
    }
}

impl Config {
    /// The configuration from the variables' values: every variable but the
    /// bucket is required (the first missing one is reported, in the order of
    /// the parameters), and the bucket defaults to `brainpile`.
    pub fn from_values(
        database_url: Option<String>,
        s3_endpoint: Option<String>,
        s3_public_endpoint: Option<String>,
        s3_access_key: Option<String>,
        s3_secret_key: Option<String>,
        s3_bucket: Option<String>,
        clip_api_url: Option<String>,
        vlm_api_base: Option<String>,
        vlm_api_key: Option<String>,
        vlm_model: Option<String>,
        embedding_api_base: Option<String>,
        embedding_api_key: Option<String>,
        embedding_model: Option<String>,
        tg_bot_token: Option<String>,
    ) -> (r: Result<Config, ConfigVar>)
        ensures
            r is Ok <==> (database_url.is_some() && s3_endpoint.is_some() && s3_public_endpoint.is_some()
                && s3_access_key.is_some() && s3_secret_key.is_some() && clip_api_url.is_some()
                && vlm_api_base.is_some() && vlm_api_key.is_some() && vlm_model.is_some()
                && embedding_api_base.is_some() && embedding_api_key.is_some() && embedding_model.is_some()
                && tg_bot_token.is_some()),
            r matches Err(v) ==> v == first_missing(database_url.is_some(), s3_endpoint.is_some(),
                s3_public_endpoint.is_some(), s3_access_key.is_some(), s3_secret_key.is_some(),
                clip_api_url.is_some(), vlm_api_base.is_some(), vlm_api_key.is_some(), vlm_model.is_some(),
                embedding_api_base.is_some(), embedding_api_key.is_some(), embedding_model.is_some()),
            r matches Ok(c) ==> {
                &&& Some(c.database_url) == database_url
                &&& Some(c.s3_endpoint) == s3_endpoint
                &&& Some(c.s3_public_endpoint) == s3_public_endpoint
                &&& Some(c.s3_access_key) == s3_access_key
                &&& Some(c.s3_secret_key) == s3_secret_key
                &&& c.s3_bucket@ == (match s3_bucket { Some(b) => b@, None => DEFAULT_BUCKET@ })
                &&& Some(c.clip_api_url) == clip_api_url
                &&& Some(c.vlm_api_base) == vlm_api_base
                &&& Some(c.vlm_api_key) == vlm_api_key
                &&& Some(c.vlm_model) == vlm_model
                &&& Some(c.embedding_api_base) == embedding_api_base
                &&& Some(c.embedding_api_key) == embedding_api_key
                &&& Some(c.embedding_model) == embedding_model
                &&& Some(c.tg_bot_token) == tg_bot_token
            },
    {
        let database_url = required(database_url, ConfigVar::DatabaseUrl)?;
        let s3_endpoint = required(s3_endpoint, ConfigVar::S3Endpoint)?;
        let s3_public_endpoint = required(s3_public_endpoint, ConfigVar::S3PublicEndpoint)?;
        let s3_access_key = required(s3_access_key, ConfigVar::S3AccessKey)?;
        let s3_secret_key = required(s3_secret_key, ConfigVar::S3SecretKey)?;
        let s3_bucket = match s3_bucket {
            Some(b) => b,
            None => String::from_str(DEFAULT_BUCKET),
        };
        let clip_api_url = required(clip_api_url, ConfigVar::ClipApiUrl)?;
        let vlm_api_base = required(vlm_api_base, ConfigVar::VlmApiBase)?;
        let vlm_api_key = required(vlm_api_key, ConfigVar::VlmApiKey)?;
        let vlm_model = required(vlm_model, ConfigVar::VlmModel)?;
        let embedding_api_base = required(embedding_api_base, ConfigVar::EmbeddingApiBase)?;
        let embedding_api_key = required(embedding_api_key, ConfigVar::EmbeddingApiKey)?;
        let embedding_model = required(embedding_model, ConfigVar::EmbeddingModel)?;
        let tg_bot_token = required(tg_bot_token, ConfigVar::TgBotToken)?;
        Ok(Config {
            database_url,
            s3_endpoint,
            s3_public_endpoint,
            s3_access_key,
            s3_secret_key,
            s3_bucket,
            clip_api_url,
            vlm_api_base,
            vlm_api_key,
            vlm_model,
            embedding_api_base,
            embedding_api_key,
            embedding_model,
            tg_bot_token,
        })
    }
}

} // verus!
