//! The run's settings record. Persistence of the record is a side effect
//! of the surrounding program; the library holds the record itself and the
//! merge of command-line overrides into it.

use vstd::prelude::*;

verus! {

/// The abstract value of a [`Config`]: its four fields as character
/// sequences.
pub ghost struct ConfigV {
    pub sonar_host: Seq<char>,
    pub ollama_url: Seq<char>,
    pub model: Seq<char>,
    pub token: Seq<char>,
}

/// The settings persisted between runs: the quality-server URL, the
/// inference-server URL, the model identifier and the auth token.
#[derive(Debug)]
pub struct Config {
    pub sonar_host: String,
    pub ollama_url: String,
    pub model: String,
    pub token: String,
}

impl View for Config {
    type V = ConfigV;

    open spec fn view(&self) -> ConfigV {
        ConfigV {
            sonar_host: self.sonar_host@,
            ollama_url: self.ollama_url@,
            model: self.model@,
            token: self.token@,
        }
    }
}

impl Config {
    /// Merges overrides into the record: each field supplied wins, each
    /// field absent leaves the persisted value in place.
    pub fn update(
        &mut self,
        sonar_host: Option<String>,
        ollama_url: Option<String>,
        token: Option<String>,
        model: Option<String>,
    )
        ensures
            final(self)@.sonar_host == match sonar_host {
                Some(h) => h@,
                None => old(self)@.sonar_host,
            },
            final(self)@.ollama_url == match ollama_url {
                Some(u) => u@,
                None => old(self)@.ollama_url,
            },
            final(self)@.token == match token {
                Some(t) => t@,
                None => old(self)@.token,
            },
            final(self)@.model == match model {
                Some(m) => m@,
                None => old(self)@.model,
            },
    {
        if let Some(host) = sonar_host {
            self.sonar_host = host;
        }
        if let Some(url) = ollama_url {
            self.ollama_url = url;
        }
        if let Some(t) = token {
            self.token = t;
        }
        if let Some(m) = model {
            self.model = m;
        }
    }
}

} // verus!
