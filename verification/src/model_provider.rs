//! The provider of models on Amazon Bedrock: what it offers and which account it uses.

use vstd::prelude::*;

verus! {

/// What a provider can do.
#[derive(Clone, Copy, Debug, PartialEq, Eq, Structural)]
pub struct ProviderCapabilities {
    pub namespace_tools: bool,
    pub image_generation: bool,
    pub web_search: bool,
}

/// The account that a provider is used with.
#[derive(Clone, Copy, Debug, PartialEq, Eq, Structural)]
pub enum ProviderAccount {
    AmazonBedrock,
}

/// Whether and how an account is needed.
#[derive(Clone, Copy, Debug, PartialEq, Eq, Structural)]
pub struct ProviderAccountState {
    pub account: Option<ProviderAccount>,
    pub requires_openai_auth: bool,
}

/// How to sign in to AWS.
#[derive(Debug, PartialEq, Eq)]
pub struct AwsAuthInfo {
    pub profile: Option<String>,
    pub region: Option<String>,
}

/// Where the models are.
#[derive(Clone, Copy, Debug, PartialEq, Eq, Structural)]
pub enum CatalogSource {
    Configured,
    BuiltIn,
}

/// The provider of models on Amazon Bedrock.
#[derive(Debug)]
pub struct AmazonBedrockModelProvider {
    pub aws: AwsAuthInfo,
}

impl AmazonBedrockModelProvider {
    /// A provider that is configured to sign in in some way, or in none.
    pub fn new(aws: Option<AwsAuthInfo>) -> (r: Self)
        ensures
            match aws {
                Some(aws) => r.aws == aws,
                None => r.aws.profile is None && r.aws.region is None,
            },
    {
        let aws = match aws {
            Some(aws) => aws,
            None => AwsAuthInfo { profile: None, region: None },
        };
        AmazonBedrockModelProvider { aws }
    }

    /// What the provider can do: none of what not every provider can.
    pub fn capabilities(&self) -> (r: ProviderCapabilities)
        ensures
            r == (ProviderCapabilities {
                namespace_tools: false,
                image_generation: false,
                web_search: false,
            }),
    {
        ProviderCapabilities { namespace_tools: false, image_generation: false, web_search: false }
    }

    /// Credentials are fetched before they are needed.
    pub fn prewarms_auth_on_startup(&self) -> (r: bool)
        ensures
            r,
    {
        true
    }

    /// The account that is used, which is none with OpenAI.
    pub fn account_state(&self) -> (r: ProviderAccountState)
        ensures
            r.account == Some(ProviderAccount::AmazonBedrock),
            !r.requires_openai_auth,
    {
        ProviderAccountState {
            account: Some(ProviderAccount::AmazonBedrock),
            requires_openai_auth: false,
        }
    }

    /// Where the models come from: a configured catalog goes before the built-in one.
    pub fn catalog_source(&self, has_configured_catalog: bool) -> (r: CatalogSource)
        ensures
            r == if has_configured_catalog {
                CatalogSource::Configured
            } else {
                CatalogSource::BuiltIn
            },
    {
        if has_configured_catalog {
            CatalogSource::Configured
        } else {
            CatalogSource::BuiltIn
        }
    }
}

} // verus!
