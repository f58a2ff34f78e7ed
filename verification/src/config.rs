//! The platform's data model: models, agents, the organisation chart and
//! workspace access, each with its abstract view.
use vstd::prelude::*;

use crate::text::{clone_opt_text, clone_texts, opt_str_text, opt_text, same_text};

verus! {

/// The first occurrence of `name` in `names` is at `i`.
pub open spec fn is_first_index(names: Seq<Seq<char>>, name: Seq<char>, i: int) -> bool {
    &&& 0 <= i < names.len()
    &&& names[i] == name
    &&& forall|j: int| 0 <= j < i ==> names[j] != name
}

/// A named model configuration entry.
#[derive(Clone, Debug, Default, PartialEq)]
pub struct ModelEntry {
    pub name: String,
    pub provider: String,
    pub api_url: String,
    pub api_key: String,
    pub model: String,
}

/// Global configuration: the known models and the default one.
#[derive(Clone, Debug, Default, PartialEq)]
pub struct Config {
    pub models: Vec<ModelEntry>,
    pub default_model: Option<String>,
}

impl Config {
    /// Names of the configured models, in order.
    pub open spec fn model_names(&self) -> Seq<Seq<char>> {
        self.models@.map_values(|m: ModelEntry| m.name@)
    }

    /// The name a lookup uses: the one asked for, else the default model.
    pub open spec fn requested_model(&self, model_name: Option<Seq<char>>) -> Option<Seq<char>> {
        match model_name {
            Some(n) => Some(n),
            None => opt_text(self.default_model),
        }
    }

    /// The entry a lookup finds: the first model with the requested name.
    pub open spec fn model_for(&self, model_name: Option<Seq<char>>) -> Option<ModelEntry> {
        match self.requested_model(model_name) {
            None => None,
            Some(n) => if self.model_names().contains(n) {
                Some(self.models@[choose|i: int| is_first_index(self.model_names(), n, i)])
            } else {
                None
            },
        }
    }

    /// Resolve a model entry by name, or fall back to the default model: the first
    /// entry whose name is the one asked for (or, with none asked for, the default's).
    pub fn resolve_model(&self, model_name: Option<&str>) -> (r: Option<&ModelEntry>)
        ensures
            match r {
                Some(e) => self.model_for(opt_str_text(model_name)) == Some(*e),
                None => self.model_for(opt_str_text(model_name)) is None,
            },
    {
        let name: &str = match model_name {
            Some(n) => n,
            None => match &self.default_model {
                Some(d) => d.as_str(),
                None => {
                    return None;
                },
            },
        };
        let mut i: usize = 0;
        while i < self.models.len()
            invariant
                i <= self.models.len(),
                self.requested_model(opt_str_text(model_name)) == Some(name@),
                forall|j: int| 0 <= j < i ==> self.models@[j].name@ != name@,
            decreases self.models.len() - i,
        {
            if same_text(self.models[i].name.as_str(), name) {
                proof {
                    assert(is_first_index(self.model_names(), name@, i as int));
                    let c = choose|c: int| is_first_index(self.model_names(), name@, c);
                    if c < i {
                        assert(self.model_names()[c] != name@);
                    }
                    if i < c {
                        assert(self.model_names()[i as int] != name@);
                    }
                }
                return Some(&self.models[i]);
            }
            i = i + 1;
        }
        proof {
            assert forall|j: int| 0 <= j < self.model_names().len() implies self.model_names()[j]
                != name@ by {}
        }
        None
    }
}

/// A model found by name has that name; without a name asked for, the default
/// model's name is the one looked up.
pub proof fn law_resolved_model_has_requested_name(config: Config, model_name: Option<Seq<char>>)
    ensures
        config.model_for(model_name) matches Some(e) ==> config.requested_model(model_name) == Some(e.name@),
        model_name is None ==> config.requested_model(model_name) == opt_text(config.default_model),
{
    if let Some(n) = config.requested_model(model_name) {
        if config.model_names().contains(n) {
            let w = choose|w: int| 0 <= w < config.model_names().len() && config.model_names()[w] == n;
            lemma_first_exists(config.model_names(), n, w);
            let i = choose|i: int| is_first_index(config.model_names(), n, i);
            assert(config.model_names()[i] == config.models@[i].name@);
        }
    }
}

proof fn lemma_first_exists(names: Seq<Seq<char>>, n: Seq<char>, w: int)
    requires
        0 <= w < names.len(),
        names[w] == n,
    ensures
        exists|i: int| is_first_index(names, n, i),
    decreases w,
{
    if exists|j: int| 0 <= j < w && names[j] == n {
        let j = choose|j: int| 0 <= j < w && names[j] == n;
        lemma_first_exists(names, n, j);
    } else {
        assert(is_first_index(names, n, w));
    }
}

/// Per-agent configuration.
#[derive(Clone, Debug, Default, PartialEq)]
pub struct AgentConfig {
    pub name: String,
    pub model: String,
    pub api_url: String,
    pub api_key: String,
    pub system_prompt: String,
    pub tools: Vec<String>,
    pub model_name: Option<String>,
}

/// The agents allowed into one project.
#[derive(Clone, Debug, Default, PartialEq)]
pub struct ProjectAccess {
    pub agents: Vec<String>,
}

/// Workspace access control: for each project, the agents that may use it. Each
/// project name occurs at most once.
#[derive(Clone, Debug, Default, PartialEq)]
pub struct WorkspaceAccess {
    pub projects: Vec<(String, ProjectAccess)>,
}

/// Abstract value of one project's access entry: the project name and its agents.
pub type AccessEntry = (Seq<char>, Seq<Seq<char>>);

impl WorkspaceAccess {
    /// The access entries, in order.
    pub open spec fn entries(&self) -> Seq<AccessEntry> {
        entries_of(self.projects@)
    }

    /// No project name occurs twice.
    pub open spec fn wf(&self) -> bool {
        entry_names(self.entries()).no_duplicates()
    }
}

/// Abstract value of one stored access entry.
pub open spec fn entry_view(x: (String, ProjectAccess)) -> AccessEntry {
    (x.0@, x.1.agents.deep_view())
}

/// Abstract values of stored access entries.
pub open spec fn entries_of(s: Seq<(String, ProjectAccess)>) -> Seq<AccessEntry> {
    s.map_values(|x: (String, ProjectAccess)| entry_view(x))
}

/// Project names of access entries, in order.
pub open spec fn entry_names(e: Seq<AccessEntry>) -> Seq<Seq<char>> {
    e.map_values(|x: AccessEntry| x.0)
}

/// A position in the organisation chart.
#[derive(Clone, Debug, Default, PartialEq)]
pub struct Position {
    pub id: String,
    pub title: String,
    pub parent_id: Option<String>,
    pub agents: Vec<String>,
    pub system_prompt: String,
}

/// Abstract value of a position.
pub struct PositionView {
    pub id: Seq<char>,
    pub title: Seq<char>,
    pub parent_id: Option<Seq<char>>,
    pub agents: Seq<Seq<char>>,
    pub system_prompt: Seq<char>,
}

impl View for Position {
    type V = PositionView;

    open spec fn view(&self) -> PositionView {
        PositionView {
            id: self.id@,
            title: self.title@,
            parent_id: opt_text(self.parent_id),
            agents: self.agents.deep_view(),
            system_prompt: self.system_prompt@,
        }
    }
}

/// Organisation chart: the company structure as a list of positions.
#[derive(Clone, Debug, Default, PartialEq)]
pub struct OrgChart {
    pub positions: Vec<Position>,
}

impl View for OrgChart {
    type V = Seq<PositionView>;

    open spec fn view(&self) -> Seq<PositionView> {
        views(self.positions@)
    }
}

/// Abstract values of a list of positions.
pub open spec fn views(v: Seq<Position>) -> Seq<PositionView> {
    v.map_values(|p: Position| p@)
}

/// Abstract value of an optional position.
pub open spec fn opt_view(o: Option<Position>) -> Option<PositionView> {
    match o {
        Some(p) => Some(p@),
        None => None,
    }
}

/// A copy of a position.
pub fn clone_position(p: &Position) -> (r: Position)
    ensures
        r@ == p@,
{
    Position {
        id: p.id.clone(),
        title: p.title.clone(),
        parent_id: clone_opt_text(&p.parent_id),
        agents: clone_texts(&p.agents),
        system_prompt: p.system_prompt.clone(),
    }
}

} // verus!
