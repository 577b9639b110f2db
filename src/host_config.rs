//! Routing table: one entry per primary hostname, naming its aliases and the
//! upstream address that requests for it are proxied to.
use vstd::prelude::*;

verus! {

/// One routing entry.
#[derive(Debug, Clone, PartialEq, Eq)]
pub struct HostConfig {
    pub host_name: String,
    pub aliases: Option<Vec<String>>,
    pub upstream_address: String,
}

/// The routing table.
#[derive(Debug, Clone, PartialEq, Eq)]
pub struct HostConfigList {
    pub host_configs: Vec<HostConfig>,
}

/// Holds the current routing table; a refresh replaces it wholesale.
#[derive(Debug)]
pub struct HostsConfigLoader {
    pub config_list: HostConfigList,
}

/// A copy of a list of names, element by element.
pub fn copy_names(v: &Vec<String>) -> (r: Vec<String>)
    ensures
        r@ == v@,
{
    let mut r: Vec<String> = Vec::new();
    let mut i: usize = 0;
    while i < v.len()
        invariant
            i <= v@.len(),
            r@ == v@.subrange(0, i as int),
        decreases v@.len() - i,
    {
        r.push(v[i].clone());
        assert(r@ =~= v@.subrange(0, i + 1));
        i = i + 1;
    }
    assert(r@ =~= v@);
    r
}

/// A copy of an optional list of names.
pub fn copy_opt_names(v: &Option<Vec<String>>) -> (r: Option<Vec<String>>)
    ensures
        match (r, *v) {
            (Some(a), Some(b)) => a@ == b@,
            (None, None) => true,
            _ => false,
        },
{
    match v {
        Some(names) => Some(copy_names(names)),
        None => None,
    }
}

/// The names of an optional list as a sequence (empty when absent).
pub open spec fn opt_names(v: Option<Vec<String>>) -> Seq<String> {
    match v {
        Some(names) => names@,
        None => Seq::empty(),
    }
}

impl HostConfig {
    /// Two entries with equal names, aliases and upstream address.
    pub open spec fn same_as(&self, o: &HostConfig) -> bool {
        &&& self.host_name == o.host_name
        &&& self.upstream_address == o.upstream_address
        &&& match (self.aliases, o.aliases) {
            (Some(a), Some(b)) => a@ == b@,
            (None, None) => true,
            _ => false,
        }
    }

    /// A deep copy of the entry.
    pub fn copy(&self) -> (r: HostConfig)
        ensures
            r.same_as(self),
    {
        HostConfig {
            host_name: self.host_name.clone(),
            aliases: copy_opt_names(&self.aliases),
            upstream_address: self.upstream_address.clone(),
        }
    }

    /// The primary name followed by the aliases.
    pub open spec fn all_names(&self) -> Seq<String> {
        seq![self.host_name] + opt_names(self.aliases)
    }
}

impl HostConfigList {
    /// Two tables with entry-wise equal contents.
    pub open spec fn same_as(&self, o: &HostConfigList) -> bool {
        &&& self.host_configs@.len() == o.host_configs@.len()
        &&& forall|i: int|
            0 <= i < self.host_configs@.len() ==> (#[trigger] self.host_configs@[i]).same_as(
                &o.host_configs@[i],
            )
    }

    /// A deep copy of the table.
    pub fn copy(&self) -> (r: HostConfigList)
        ensures
            r.same_as(self),
    {
        let mut out: Vec<HostConfig> = Vec::new();
        let mut i: usize = 0;
        while i < self.host_configs.len()
            invariant
                i <= self.host_configs@.len(),
                out@.len() == i,
                forall|k: int| 0 <= k < i ==> (#[trigger] out@[k]).same_as(&self.host_configs@[k]),
            decreases self.host_configs@.len() - i,
        {
            out.push(self.host_configs[i].copy());
            i = i + 1;
        }
        HostConfigList { host_configs: out }
    }
}

impl HostsConfigLoader {
    /// A loader holding the table read at startup.
    pub fn new(config_list: HostConfigList) -> (r: HostsConfigLoader)
        ensures
            r.config_list == config_list,
    {
        HostsConfigLoader { config_list }
    }

    /// Takes the outcome of re-reading the table: a table that was read and
    /// parsed replaces the current one; a failed read (`None`) keeps it.
    pub fn refresh_hosts_config(&mut self, reloaded: Option<HostConfigList>)
        ensures
            match reloaded {
                Some(l) => final(self).config_list == l,
                None => final(self).config_list == old(self).config_list,
            },
    {
        if let Some(l) = reloaded {
            self.config_list = l;
        }
    }

    /// A snapshot of the current table, independent of later refreshes.
    pub fn load(&self) -> (r: HostConfigList)
        ensures
            r.same_as(&self.config_list),
    {
        self.config_list.copy()
    }
}

} // verus!
