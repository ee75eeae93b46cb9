//! Geniuses: AI agents that can be consulted, each bound to a provider and a
//! model, with an opaque JSON configuration bag.

use vstd::prelude::*;

use crate::external::{empty_json_object, new_uuid};
use crate::plan_parser::{ci_match, lc_seq, str_to_chars};

verus! {

/// The AI provider behind a genius.
#[derive(Debug, Clone, Copy, PartialEq, Eq, Structural)]
pub enum Provider {
    Anthropic,
    OpenAI,
    Ollama,
    Custom,
}

/// The lowercase name of a provider.
pub open spec fn provider_name(p: Provider) -> Seq<char> {
    match p {
        Provider::Anthropic => "anthropic"@,
        Provider::OpenAI => "openai"@,
        Provider::Ollama => "ollama"@,
        Provider::Custom => "custom"@,
    }
}

/// The provider a name denotes, compared without regard to letter case.
pub open spec fn provider_of_name(s: Seq<char>) -> Option<Provider> {
    let l = lc_seq(s);
    if l == "anthropic"@ {
        Some(Provider::Anthropic)
    } else if l == "openai"@ {
        Some(Provider::OpenAI)
    } else if l == "ollama"@ {
        Some(Provider::Ollama)
    } else if l == "custom"@ {
        Some(Provider::Custom)
    } else {
        None
    }
}

impl Provider {
    /// The lowercase name of this provider.
    pub fn as_str(&self) -> (r: &'static str)
        ensures
            r@ == provider_name(*self),
    {
        match self {
            Provider::Anthropic => "anthropic",
            Provider::OpenAI => "openai",
            Provider::Ollama => "ollama",
            Provider::Custom => "custom",
        }
    }
}

/// Read a provider from its name.
pub fn parse_provider(s: &str) -> (r: Result<Provider, String>)
    ensures
        provider_of_name(s@) matches Some(p) ==> r == Ok::<Provider, String>(p),
        provider_of_name(s@) is None ==> (r matches Err(m) && m@ == "Unknown provider: "@ + s@),
{
    let v = str_to_chars(s);
    let n = v.len();
    proof {
        assert(v@.subrange(0, n as int) =~= s@);
    }
    if ci_match(&v, 0, n, "anthropic") {
        Ok(Provider::Anthropic)
    } else if ci_match(&v, 0, n, "openai") {
        Ok(Provider::OpenAI)
    } else if ci_match(&v, 0, n, "ollama") {
        Ok(Provider::Ollama)
    } else if ci_match(&v, 0, n, "custom") {
        Ok(Provider::Custom)
    } else {
        let mut m = String::from_str("Unknown provider: ");
        m.append(s);
        Err(m)
    }
}

impl core::str::FromStr for Provider {
    type Err = String;

    fn from_str(s: &str) -> Result<Provider, String> {
        parse_provider(s)
    }
}

/// An AI agent that can be consulted.
#[derive(Debug)]
pub struct Genius {
    /// The stable opaque id.
    pub id: u128,
    /// The genius's name.
    pub name: String,
    /// The provider serving it.
    pub provider: Provider,
    /// The model identifier handed to the provider.
    pub model: String,
    /// An optional system prompt.
    pub system_prompt: Option<String>,
    /// Extra provider configuration, carried as opaque JSON.
    pub config: serde_json::Value,
}

impl Genius {
    /// Create a new genius with an empty configuration bag.
    pub fn new(name: String, provider: Provider, model: String) -> (r: Self)
        ensures
            r.name == name,
            r.provider == provider,
            r.model == model,
            r.system_prompt is None,
    {
        Genius {
            id: new_uuid(),
            name,
            provider,
            model,
            system_prompt: None,
            config: empty_json_object(),
        }
    }

    /// Set the system prompt.
    pub fn with_system_prompt(self, prompt: String) -> (r: Self)
        ensures
            r.id == self.id,
            r.name == self.name,
            r.provider == self.provider,
            r.model == self.model,
            r.system_prompt == Some(prompt),
    {
        Genius { system_prompt: Some(prompt), ..self }
    }

    /// Replace the configuration bag.
    pub fn with_config(self, config: serde_json::Value) -> (r: Self)
        ensures
            r.id == self.id,
            r.name == self.name,
            r.provider == self.provider,
            r.model == self.model,
            r.system_prompt == self.system_prompt,
    {
        Genius { config, ..self }
    }
}

} // verus!
