use crate::error::AppError;
use vstd::prelude::*;

verus! {

/// How the commands of one group are run: all at once, or one after another
/// in the order in which they were declared.
#[derive(Debug, Clone, Copy, PartialEq, Eq, Structural)]
pub enum ExecutionOrder {
    Parallel,
    Sequential,
}

/// Where the configuration was found, by kind of file.
#[derive(Debug, Clone)]
pub enum ConfigSource {
    TomlFile(String),
    JsonFile(String),
    PackageJson(String),
}

/// The configuration: an optional default timeout, and named groups in the
/// order they were declared.
#[derive(Debug, Clone)]
pub struct Config {
    pub timeout: Option<String>,
    pub groups: Vec<(String, GroupConfig)>,
}

/// One group as configured: glob patterns, each with its commands, and an
/// optional timeout and execution order.
#[derive(Debug, Clone)]
pub struct GroupConfig {
    pub timeout: Option<String>,
    pub execution_order: Option<ExecutionOrder>,
    pub patterns: Vec<(String, Vec<String>)>,
}

/// A group with its defaults applied.
#[derive(Debug, Clone)]
pub struct Group {
    pub name: String,
    pub patterns: Vec<(String, Vec<String>)>,
    pub timeout: Option<String>,
    pub execution_order: ExecutionOrder,
}

/// A group's effective settings: its own timeout or else the default one,
/// and its own order or else parallel.
pub open spec fn resolved_group(name: String, g: GroupConfig, default_timeout: Option<String>) -> Group {
    Group {
        name,
        patterns: g.patterns,
        timeout: if g.timeout.is_some() {
            g.timeout
        } else {
            default_timeout
        },
        execution_order: match g.execution_order {
            Some(o) => o,
            None => ExecutionOrder::Parallel,
        },
    }
}

pub(crate) fn clone_text(o: &Option<String>) -> (r: Option<String>)
    ensures
        r == *o,
{
    match o {
        Some(s) => Some(s.clone()),
        None => None,
    }
}

fn clone_texts(v: &Vec<String>) -> (r: Vec<String>)
    ensures
        r@ == v@,
{
    let mut r: Vec<String> = Vec::new();
    let mut i: usize = 0;
    while i < v.len()
        invariant
            i <= v@.len(),
            r@ == v@.take(i as int),
        decreases v.len() - i,
    {
        r.push(v[i].clone());
        proof {
            assert(r@ =~= v@.take(i as int + 1));
        }
        i = i + 1;
    }
    proof {
        assert(v@.take(i as int) =~= v@);
    }
    r
}

fn clone_patterns(v: &Vec<(String, Vec<String>)>) -> (r: Vec<(String, Vec<String>)>)
    ensures
        r@.len() == v@.len(),
        forall|i: int| 0 <= i < v@.len() ==> (#[trigger] r@[i]).0 == v@[i].0 && r@[i].1@ == v@[i].1@,
{
    let mut r: Vec<(String, Vec<String>)> = Vec::new();
    let mut i: usize = 0;
    while i < v.len()
        invariant
            i <= v@.len(),
            r@.len() == i,
            forall|k: int| 0 <= k < i ==> (#[trigger] r@[k]).0 == v@[k].0 && r@[k].1@ == v@[k].1@,
        decreases v.len() - i,
    {
        let (p, cmds) = &v[i];
        r.push((p.clone(), clone_texts(cmds)));
        i = i + 1;
    }
    r
}

/// `gs` are the configuration's groups in declaration order, each with its
/// defaults applied, holding the same patterns and commands.
pub open spec fn groups_of(config: Config, gs: Seq<Group>) -> bool {
    &&& gs.len() == config.groups@.len()
    &&& forall|i: int|
        0 <= i < gs.len() ==> {
            let want = resolved_group(config.groups@[i].0, config.groups@[i].1, config.timeout);
            &&& (#[trigger] gs[i]).name == want.name
            &&& gs[i].timeout == want.timeout
            &&& gs[i].execution_order == want.execution_order
            &&& gs[i].patterns@.len() == want.patterns@.len()
            &&& forall|p: int|
                0 <= p < want.patterns@.len() ==> (#[trigger] gs[i].patterns@[p]).0
                    == want.patterns@[p].0 && gs[i].patterns@[p].1@ == want.patterns@[p].1@
        }
}

/// Groups of the configuration in declaration order, with defaults applied.
pub fn parse_groups_from_config(config: &Config) -> (r: Vec<Group>)
    ensures
        groups_of(*config, r@),
{
    let mut groups: Vec<Group> = Vec::new();
    let mut i: usize = 0;
    while i < config.groups.len()
        invariant
            i <= config.groups@.len(),
            groups@.len() == i,
            forall|k: int|
                0 <= k < i ==> {
                    let want = resolved_group(
                        config.groups@[k].0,
                        config.groups@[k].1,
                        config.timeout,
                    );
                    &&& (#[trigger] groups@[k]).name == want.name
                    &&& groups@[k].timeout == want.timeout
                    &&& groups@[k].execution_order == want.execution_order
                    &&& groups@[k].patterns@.len() == want.patterns@.len()
                    &&& forall|p: int|
                        0 <= p < want.patterns@.len() ==> (#[trigger] groups@[k].patterns@[p]).0
                            == want.patterns@[p].0 && groups@[k].patterns@[p].1@
                            == want.patterns@[p].1@
                },
        decreases config.groups.len() - i,
    {
        let (name, gc) = &config.groups[i];
        let timeout = match &gc.timeout {
            Some(t) => Some(t.clone()),
            None => clone_text(&config.timeout),
        };
        let execution_order = match gc.execution_order {
            Some(o) => o,
            None => ExecutionOrder::Parallel,
        };
        groups.push(
            Group { name: name.clone(), patterns: clone_patterns(&gc.patterns), timeout, execution_order },
        );
        i = i + 1;
    }
    groups
}

/// Number of file names that may hold the configuration.
pub open spec fn candidate_count() -> nat {
    5
}

/// The file names that may hold the configuration, in the order in which
/// they are looked for.
pub fn config_candidates() -> (r: Vec<&'static str>)
    ensures
        r@.len() == candidate_count(),
        r@[0]@ == ".fast-staged.toml"@,
        r@[1]@ == "fast-staged.toml"@,
        r@[2]@ == ".fast-staged.json"@,
        r@[3]@ == "fast-staged.json"@,
        r@[4]@ == "package.json"@,
{
    vec![".fast-staged.toml", "fast-staged.toml", ".fast-staged.json", "fast-staged.json", "package.json"]
}

/// Picks the first candidate configuration file that exists. `paths` holds
/// the candidates in the order `.fast-staged.toml`, `fast-staged.toml`,
/// `.fast-staged.json`, `fast-staged.json`, `package.json`, and `exists`
/// whether each is present. With none present, all paths are reported as
/// checked.
pub fn select_config_source(paths: &Vec<String>, exists: &Vec<bool>) -> (r: Result<ConfigSource, AppError>)
    requires
        paths@.len() == candidate_count(),
        exists@.len() == candidate_count(),
    ensures
        match r {
            Ok(ConfigSource::TomlFile(p)) => (exists@[0] && p == paths@[0]) || (!exists@[0] && exists@[1]
                && p == paths@[1]),
            Ok(ConfigSource::JsonFile(p)) => !exists@[0] && !exists@[1] && ((exists@[2] && p
                == paths@[2]) || (!exists@[2] && exists@[3] && p == paths@[3])),
            Ok(ConfigSource::PackageJson(p)) => !exists@[0] && !exists@[1] && !exists@[2]
                && !exists@[3] && exists@[4] && p == paths@[4],
            Err(AppError::ConfigNotFound { checked_paths }) => (forall|i: int|
                0 <= i < 5 ==> !exists@[i]) && checked_paths@ == paths@,
            Err(_) => false,
        },
{
    if exists[0] {
        return Ok(ConfigSource::TomlFile(paths[0].clone()));
    }
    if exists[1] {
        return Ok(ConfigSource::TomlFile(paths[1].clone()));
    }
    if exists[2] {
        return Ok(ConfigSource::JsonFile(paths[2].clone()));
    }
    if exists[3] {
        return Ok(ConfigSource::JsonFile(paths[3].clone()));
    }
    if exists[4] {
        return Ok(ConfigSource::PackageJson(paths[4].clone()));
    }
    Err(AppError::ConfigNotFound { checked_paths: clone_texts(paths) })
}

} // verus!
