//! The resolved per-run settings handed to every component: the merge of
//! command-line overrides with the persisted configuration. Parsing the
//! command line and reading or writing the persisted record are the
//! surrounding program's work; it hands the plain values in.

use vstd::prelude::*;

use crate::config::Config;

verus! {

/// The abstract value of an [`Args`].
pub ghost struct ArgsV {
    pub sonar_host: Option<Seq<char>>,
    pub ollama_url: Option<Seq<char>>,
    pub project_key: Seq<char>,
    pub token: Option<Seq<char>>,
    pub model: Option<Seq<char>>,
    pub rules: Seq<Seq<char>>,
}

/// The per-run settings: server URLs, project key, auth token, model
/// identifier and the rule identifiers to treat as always false positive.
#[derive(Debug)]
pub struct Args {
    sonar_host: Option<String>,
    ollama_url: Option<String>,
    project_key: String,
    token: Option<String>,
    model: Option<String>,
    rules: Vec<String>,
}

impl View for Args {
    type V = ArgsV;

    closed spec fn view(&self) -> ArgsV {
        ArgsV {
            sonar_host: self.sonar_host.deep_view(),
            ollama_url: self.ollama_url.deep_view(),
            project_key: self.project_key@,
            token: self.token.deep_view(),
            model: self.model.deep_view(),
            rules: self.rules.deep_view(),
        }
    }
}

impl Args {
    /// A resolved record: every optional field has been filled from the
    /// merge with the persisted configuration.
    pub open spec fn wf(&self) -> bool {
        &&& self@.sonar_host is Some
        &&& self@.ollama_url is Some
        &&& self@.token is Some
        &&& self@.model is Some
    }

    /// Resolves the run's settings: each command-line override wins over
    /// the persisted value, the merged record is returned alongside so
    /// that it can be persisted again, and every field of the returned
    /// settings is filled from the merge.
    pub fn new(
        sonar_host: Option<String>,
        ollama_url: Option<String>,
        project_key: String,
        token: Option<String>,
        model: Option<String>,
        rules: Vec<String>,
        config: Config,
    ) -> (r: (Args, Config))
        ensures
            r.0.wf(),
            r.1@.sonar_host == match sonar_host {
                Some(h) => h@,
                None => config@.sonar_host,
            },
            r.1@.ollama_url == match ollama_url {
                Some(u) => u@,
                None => config@.ollama_url,
            },
            r.1@.token == match token {
                Some(t) => t@,
                None => config@.token,
            },
            r.1@.model == match model {
                Some(m) => m@,
                None => config@.model,
            },
            r.0@.sonar_host == Some(r.1@.sonar_host),
            r.0@.ollama_url == Some(r.1@.ollama_url),
            r.0@.token == Some(r.1@.token),
            r.0@.model == Some(r.1@.model),
            r.0@.project_key == project_key@,
            r.0@.rules == rules.deep_view(),
    {
        let mut cfg = config;
        cfg.update(sonar_host, ollama_url, token, model);
        let args = Args {
            sonar_host: Some(cfg.sonar_host.clone()),
            ollama_url: Some(cfg.ollama_url.clone()),
            project_key,
            token: Some(cfg.token.clone()),
            model: Some(cfg.model.clone()),
            rules,
        };
        (args, cfg)
    }

    /// The quality-server base URL.
    pub fn sonar_host(&self) -> (r: String)
        requires
            self@.sonar_host is Some,
        ensures
            r@ == self@.sonar_host->0,
    {
        match &self.sonar_host {
            Some(s) => s.clone(),
            None => String::new(),
        }
    }

    /// The inference-server base URL.
    pub fn ollama_url(&self) -> (r: String)
        requires
            self@.ollama_url is Some,
        ensures
            r@ == self@.ollama_url->0,
    {
        match &self.ollama_url {
            Some(s) => s.clone(),
            None => String::new(),
        }
    }

    /// The quality-server project key.
    pub fn project_key(&self) -> (r: String)
        ensures
            r@ == self@.project_key,
    {
        self.project_key.clone()
    }

    /// The auth token.
    pub fn token(&self) -> (r: String)
        requires
            self@.token is Some,
        ensures
            r@ == self@.token->0,
    {
        match &self.token {
            Some(s) => s.clone(),
            None => String::new(),
        }
    }

    /// The model identifier.
    pub fn model(&self) -> (r: String)
        requires
            self@.model is Some,
        ensures
            r@ == self@.model->0,
    {
        match &self.model {
            Some(s) => s.clone(),
            None => String::new(),
        }
    }

    /// The rule identifiers to treat as always false positive.
    pub fn rules(&self) -> (r: Vec<String>)
        ensures
            r.deep_view() == self@.rules,
    {
        let mut out: Vec<String> = Vec::new();
        let mut i: usize = 0;
        while i < self.rules.len()
            invariant
                i <= self.rules.len(),
                out.len() == i,
                forall|k: int| 0 <= k < i ==> out@[k]@ == self.rules@[k]@,
            decreases self.rules.len() - i,
        {
            let x = self.rules[i].clone();
            out.push(x);
            i += 1;
        }
        proof {
            assert(out.deep_view() =~= self@.rules);
        }
        out
    }
}

} // verus!
