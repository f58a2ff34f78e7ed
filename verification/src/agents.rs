//! Agent names: the validation that keeps an agent's folder inside the agents directory.
use vstd::prelude::*;

use crate::text::{contains_seq, contains_text, text_contains};

verus! {

/// The name holds a path separator or `..`, so that as a folder name it could
/// reach outside the agents (or workspace) directory.
pub open spec fn has_path_syntax(name: Seq<char>) -> bool {
    contains_seq(name, seq!['/']) || contains_seq(name, seq!['\\']) || contains_seq(name, seq!['.', '.'])
}

/// The error for an agent name, if it has one.
pub open spec fn agent_name_error(name: Seq<char>) -> Option<Seq<char>> {
    if name.len() == 0 {
        Some("Agent name is required"@)
    } else if has_path_syntax(name) {
        Some("Agent name contains invalid characters"@)
    } else {
        None
    }
}

/// Whether a name holds a path separator or `..`.
pub fn path_syntax(name: &str) -> (r: bool)
    ensures
        r == has_path_syntax(name@),
{
    let slash = text_contains(name, "/");
    let backslash = text_contains(name, "\\");
    let dots = text_contains(name, "..");
    proof {
        reveal_strlit("/");
        reveal_strlit("\\");
        reveal_strlit("..");
        assert("/"@ =~= seq!['/']);
        assert("\\"@ =~= seq!['\\']);
        assert(".."@ =~= seq!['.', '.']);
    }
    slash || backslash || dots
}

/// Validate an agent name: it must not be empty nor hold path traversal characters.
pub fn validate_name(name: &str) -> (r: Result<(), String>)
    ensures
        match agent_name_error(name@) {
            None => r is Ok,
            Some(e) => r is Err && r->Err_0@ == e,
        },
{
    if name.is_empty() {
        return Err(String::from_str("Agent name is required"));
    }
    if path_syntax(name) {
        return Err(String::from_str("Agent name contains invalid characters"));
    }
    Ok(())
}

/// The fields every stored agent configuration must have, in order.
pub open spec fn required_agent_fields() -> Seq<Seq<char>> {
    seq!["name"@, "model"@, "api_url"@, "api_key"@, "system_prompt"@, "tools"@]
}

/// The field is not among `present`.
pub open spec fn absent_from(present: Seq<Seq<char>>) -> spec_fn(Seq<char>) -> bool {
    |f: Seq<char>| !present.contains(f)
}

/// The required fields that a stored agent configuration with the fields `present`
/// lacks, in order; repairing it means adding these with default values.
pub fn missing_agent_fields(present: &Vec<String>) -> (r: Vec<&'static str>)
    ensures
        r@.map_values(|s: &str| s@) == required_agent_fields().filter(absent_from(present.deep_view())),
{
    let all = vec!["name", "model", "api_url", "api_key", "system_prompt", "tools"];
    assert(all@.map_values(|s: &str| s@) =~= required_agent_fields());
    let ghost names = required_agent_fields();
    let mut r: Vec<&'static str> = Vec::new();
    let mut i: usize = 0;
    while i < all.len()
        invariant
            i <= all.len(),
            all@.map_values(|s: &str| s@) == names,
            names == required_agent_fields(),
            r@.map_values(|s: &str| s@) == names.take(i as int).filter(absent_from(present.deep_view())),
        decreases all.len() - i,
    {
        let ghost before = r@;
        proof {
            assert(names.take(i + 1) =~= names.take(i as int).push(names[i as int]));
            names.take(i as int).lemma_filter_push(names[i as int], absent_from(present.deep_view()));
        }
        let f = all[i];
        if !contains_text(present, f) {
            r.push(f);
            assert(r@.map_values(|s: &str| s@) =~= before.map_values(|s: &str| s@).push(f@));
        }
        i = i + 1;
    }
    assert(names.take(6) =~= names);
    r
}

/// What the JSON parser reads from a stored configuration's text: nothing when it
/// is not JSON; else the keys of the object it holds, or nothing for them when it
/// holds some other JSON value.
pub uninterp spec fn json_object_keys(content: Seq<char>) -> Option<Option<Seq<Seq<char>>>>;

/// `serde_json::from_str::<serde_json::Value>` on the text, then the keys of the
/// object, in the order the parsed map gives them. `None` when the text is not JSON,
/// `Some(None)` when the JSON value is not an object.
#[verifier::external_body]
fn parse_object_keys(content: &str) -> (r: Option<Option<Vec<String>>>)
    ensures
        match r {
            None => json_object_keys(content@) is None,
            Some(None) => json_object_keys(content@) == Some(None::<Seq<Seq<char>>>),
            Some(Some(k)) => json_object_keys(content@) == Some(Some(k.deep_view())),
        },
{
    let v: serde_json::Value = serde_json::from_str(content).ok()?;
    Some(v.as_object().map(|m| m.keys().cloned().collect()))
}

/// How a stored agent configuration is repaired.
#[derive(Clone, Debug, PartialEq)]
pub enum AgentRepair {
    /// It is kept as it is.
    Keep,
    /// It is moved aside and replaced by the default configuration.
    Reset,
    /// These missing fields are added with their default values.
    AddFields(Vec<&'static str>),
}

/// Decide how to repair a stored agent configuration: keep one that reads as a
/// configuration; reset one that is not JSON; keep one that is JSON but not an
/// object; otherwise add the required fields it lacks (keeping it when it lacks
/// none).
pub fn plan_agent_repair(parses_as_config: bool, keys: Option<Option<Vec<String>>>) -> (r: AgentRepair)
    ensures
        parses_as_config ==> r is Keep,
        !parses_as_config ==> match keys {
            None => r is Reset,
            Some(None) => r is Keep,
            Some(Some(k)) => if required_agent_fields().filter(absent_from(k.deep_view())).len() == 0 {
                r is Keep
            } else {
                r matches AgentRepair::AddFields(f) && f@.map_values(|s: &str| s@) == required_agent_fields().filter(
                    absent_from(k.deep_view()),
                )
            },
        },
{
    if parses_as_config {
        return AgentRepair::Keep;
    }
    match keys {
        None => AgentRepair::Reset,
        Some(None) => AgentRepair::Keep,
        Some(Some(k)) => {
            let missing = missing_agent_fields(&k);
            if missing.len() == 0 {
                AgentRepair::Keep
            } else {
                AgentRepair::AddFields(missing)
            }
        },
    }
}

/// Decide how to repair the stored agent configuration `content`, given whether it
/// reads as a configuration.
pub fn agent_repair(content: &str, parses_as_config: bool) -> (r: AgentRepair)
    ensures
        parses_as_config ==> r is Keep,
        !parses_as_config ==> match json_object_keys(content@) {
            None => r is Reset,
            Some(None) => r is Keep,
            Some(Some(k)) => if required_agent_fields().filter(absent_from(k)).len() == 0 {
                r is Keep
            } else {
                r matches AgentRepair::AddFields(f) && f@.map_values(|s: &str| s@) == required_agent_fields().filter(
                    absent_from(k),
                )
            },
        },
{
    plan_agent_repair(parses_as_config, parse_object_keys(content))
}

} // verus!
