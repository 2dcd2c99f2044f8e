//! Configuration data used by the verified components. Reading the config
//! file is the driver's job; the shapes and the workspace-path rule live
//! here.

use vstd::prelude::*;

verus! {

/// The channels the agent listens on.
#[derive(Debug)]
pub struct ChannelsConfig {
    pub telegram: Option<TelegramConfig>,
}

/// One chat-platform listener's settings.
#[derive(Debug)]
pub struct TelegramConfig {
    pub enabled: bool,
    pub token: String,
    pub allow_from: Vec<String>,
}

/// The model backends that may serve the agent.
#[derive(Debug)]
pub struct ProvidersConfig {
    pub openai: Option<ProviderConfig>,
    pub gemini: Option<ProviderConfig>,
    pub openrouter: Option<ProviderConfig>,
    pub zhipu: Option<ProviderConfig>,
    pub vllm: Option<ProviderConfig>,
}

/// One backend's credentials and endpoint.
#[derive(Debug)]
pub struct ProviderConfig {
    pub api_key: String,
    pub api_base: Option<String>,
}

/// Tool settings.
#[derive(Debug)]
pub struct ToolsConfig {
    pub web: WebToolsConfig,
}

/// Web tool settings.
#[derive(Debug)]
pub struct WebToolsConfig {
    pub search: WebSearchConfig,
}

/// Web search settings.
#[derive(Debug)]
pub struct WebSearchConfig {
    pub api_key: String,
    pub max_results: usize,
}

/// The workspace path with a leading `~/` expanded to the home directory,
/// when one is known; any other path is kept as it is.
pub fn expand_home(path: &str, home: Option<&str>) -> (r: String)
    ensures
        ({
            let expandable = path@.len() >= 2 && path@[0] == '~';
            match home {
                Some(h) if expandable => r@ == h@ + seq!['/'] + path@.subrange(
                    2,
                    path@.len() as int,
                ),
                _ => r@ == path@,
            }
        }),
{
    let n = path.unicode_len();
    if n >= 2 && path.get_char(0) == '~' {
        match home {
            Some(h) => {
                let rest = path.substring_char(2, n);
                let mut s = String::from_str(h);
                s.append("/");
                s.append(rest);
                proof {
                    reveal_strlit("/");
                    assert("/"@ =~= seq!['/']);
                    assert(s@ =~= h@ + seq!['/'] + path@.subrange(2, path@.len() as int));
                }
                s
            },
            None => String::from_str(path),
        }
    } else {
        String::from_str(path)
    }
}

} // verus!
