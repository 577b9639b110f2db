//! The certificate store: hostnames bound to record slots.
//!
//! A record lives in one slot; its primary name and each alias are bound to
//! that slot, so every name of a record reaches the same logical record, and
//! replacing the record in its slot replaces it under all of them at once.
use vstd::prelude::*;
use crate::certificate::Certificate;
use crate::host_config::{copy_names, opt_names, HostConfig, HostConfigList, HostsConfigLoader};

verus! {

/// The index of the first entry whose name has the text `n`.
pub open spec fn find_name(entries: Seq<(String, usize)>, n: Seq<char>) -> Option<int>
    decreases entries.len(),
{
    if entries.len() == 0 {
        None
    } else {
        match find_name(entries.drop_last(), n) {
            Some(k) => Some(k),
            None => if entries.last().0@ == n {
                Some(entries.len() - 1)
            } else {
                None
            },
        }
    }
}

proof fn lemma_find_name_bounds(entries: Seq<(String, usize)>, n: Seq<char>)
    ensures
        match find_name(entries, n) {
            Some(k) => 0 <= k < entries.len() && entries[k].0@ == n,
            None => forall|i: int| 0 <= i < entries.len() ==> (#[trigger] entries[i]).0@ != n,
        },
    decreases entries.len(),
{
    if entries.len() > 0 {
        lemma_find_name_bounds(entries.drop_last(), n);
        assert forall|i: int| 0 <= i < entries.len() - 1 implies entries.drop_last()[i] == #[trigger] entries[i] by {}
    }
}

proof fn lemma_find_name_same_names(a: Seq<(String, usize)>, b: Seq<(String, usize)>, n: Seq<char>)
    requires
        a.len() == b.len(),
        forall|i: int| 0 <= i < a.len() ==> (#[trigger] a[i]).0@ == b[i].0@,
    ensures
        find_name(a, n) == find_name(b, n),
    decreases a.len(),
{
    if a.len() > 0 {
        lemma_find_name_same_names(a.drop_last(), b.drop_last(), n);
    }
}

/// Why a request could not be routed.
#[derive(Debug, Clone, Copy, PartialEq, Eq, Structural)]
pub enum RouteError {
    /// No record is bound to the host.
    UnknownHost,
    /// The host's record carries no routing entry.
    NoRouting,
}

/// The hostnames bound to record slots, plus the routing-table loader.
#[derive(Debug)]
pub struct CertStore {
    records: Vec<Certificate>,
    names: Vec<(String, usize)>,
    host_config_loader: Option<HostsConfigLoader>,
}

/// The names a record is installed under: its primary name, then its aliases.
pub open spec fn record_names(c: Certificate) -> Seq<String> {
    seq![c.host_name] + opt_names(c.host_names)
}

/// `n` is the text of one of `names`.
pub open spec fn names_cover(names: Seq<String>, n: Seq<char>) -> bool {
    exists|i: int| 0 <= i < names.len() && (#[trigger] names[i])@ == n
}

/// The records due for renewal, in slot order: the primary name of each
/// record whose leaf expires within `threshold_days` days of `now`.
pub open spec fn due_names(recs: Seq<Certificate>, now: i64, threshold_days: u32) -> Seq<String>
    decreases recs.len(),
{
    if recs.len() == 0 {
        Seq::empty()
    } else {
        let r = due_names(recs.drop_last(), now, threshold_days);
        let c = recs.last();
        match c.validity() {
            Ok(v) => if v.1 < now + threshold_days * 86400 {
                r.push(c.host_name)
            } else {
                r
            },
            Err(_) => r,
        }
    }
}

/// The names that an entry of a routing table brings, with the record read
/// for it: the entry's names, then the record's names.
pub open spec fn entry_names(hc: HostConfig, loaded: Option<Certificate>) -> Seq<String> {
    hc.all_names() + match loaded {
        Some(l) => record_names(l),
        None => Seq::empty(),
    }
}

/// No name that entry `a` brings is brought by an entry after it and before
/// `hi`.
pub open spec fn unclaimed_between(
    table: Seq<HostConfig>,
    loaded: Seq<Option<Certificate>>,
    a: int,
    hi: int,
) -> bool {
    forall|j: int, n: Seq<char>|
        #![trigger names_cover(entry_names(table[a], loaded[a]), n), names_cover(entry_names(table[j], loaded[j]), n)]
        a < j < hi && names_cover(entry_names(table[a], loaded[a]), n) ==> !names_cover(
            entry_names(table[j], loaded[j]),
            n,
        )
}

/// `c` is the record installed for a routing entry: the record read for it
/// (the placeholder carrying only the entry's primary name when none was
/// read), with the entry as its routing.
pub open spec fn entry_record(c: Certificate, hc: HostConfig, loaded: Option<Certificate>) -> bool {
    &&& c.host_config matches Some(h) && h.same_as(&hc)
    &&& match loaded {
        Some(l) => {
            &&& c.host_name == l.host_name
            &&& c.host_names == l.host_names
            &&& c.private_key_pem == l.private_key_pem
            &&& c.certificate_pem == l.certificate_pem
            &&& c.full_chain == l.full_chain
        },
        None => {
            &&& c.host_name == hc.host_name
            &&& c.host_names.is_none()
            &&& c.private_key_pem.is_none()
            &&& c.certificate_pem.is_none()
            &&& c.full_chain.is_none()
        },
    }
}

/// After a routing table was loaded with the records read for it: every
/// name of every entry is bound, and each entry whose names no later entry
/// brings has all its names reaching the record installed for it.
pub open spec fn table_installed(store: CertStore, table: Seq<HostConfig>, loaded: Seq<Option<Certificate>>) -> bool {
    &&& forall|i: int, j: int|
        0 <= i < table.len() && 0 <= j < table[i].all_names().len() ==> (#[trigger] store.slot_of(
            table[i].all_names()[j]@,
        )).is_some()
    &&& forall|i: int|
        0 <= i < table.len() && #[trigger] unclaimed_between(table, loaded, i, table.len() as int)
            ==> exists|c: Certificate|
            #![trigger entry_record(c, table[i], loaded[i])]
            entry_record(c, table[i], loaded[i]) && forall|n: Seq<char>|
                #[trigger] names_cover(table[i].all_names(), n) ==> store.lookup(n) == Some(c)
}

impl CertStore {
    /// Every bound slot holds a record.
    pub closed spec fn wf(&self) -> bool {
        forall|i: int| 0 <= i < self.names@.len() ==> (#[trigger] self.names@[i]).1 < self.records@.len()
    }

    /// The slot that name `n` is bound to.
    pub closed spec fn slot_of(&self, n: Seq<char>) -> Option<int> {
        match find_name(self.names@, n) {
            Some(k) => Some(self.names@[k].1 as int),
            None => None,
        }
    }

    /// The record reached under name `n`.
    pub closed spec fn lookup(&self, n: Seq<char>) -> Option<Certificate> {
        match self.slot_of(n) {
            Some(s) => if 0 <= s < self.records@.len() {
                Some(self.records@[s])
            } else {
                None
            },
            None => None,
        }
    }

    /// The bound hostnames, in binding order.
    pub closed spec fn bound_names(&self) -> Seq<String> {
        self.names@.map_values(|e: (String, usize)| e.0)
    }

    /// The slots of the store.
    pub closed spec fn slots(&self) -> Seq<Certificate> {
        self.records@
    }

    /// The routing-table loader, if one is set.
    pub closed spec fn loader(&self) -> Option<HostsConfigLoader> {
        self.host_config_loader
    }

    /// The slot that installing a record with primary name `p` reuses: the
    /// slot `p` is bound to, when the record there has `p` as its own primary
    /// name (the record being replaced); `None` otherwise.
    pub closed spec fn replaced_slot(&self, p: Seq<char>) -> Option<int> {
        match self.slot_of(p) {
            Some(s) => if 0 <= s < self.records@.len() && self.records@[s].host_name@ == p {
                Some(s)
            } else {
                None
            },
            None => None,
        }
    }

    /// `after` is `before` with `cert` installed: one slot `s` now holds
    /// `cert`, every name of `cert` (and of `extra`) is bound to `s`, every other
    /// name keeps its binding, and every other slot keeps its record. `s` is
    /// the slot of the record that `cert` replaces (same primary name), else a
    /// new slot.
    pub closed spec fn installed(before: CertStore, after: CertStore, cert: Certificate, extra: Seq<String>) -> bool {
        exists|s: int| {
            &&& 0 <= s < after.records@.len()
            &&& after.records@[s] == cert
            &&& s == match before.replaced_slot(cert.host_name@) {
                Some(p) => p,
                None => before.records@.len() as int,
            }
            &&& forall|n: Seq<char>| #[trigger] after.slot_of(n) == if names_cover(record_names(cert), n)
                || names_cover(extra, n) {
                Some(s)
            } else {
                before.slot_of(n)
            }
            &&& forall|i: int| 0 <= i < before.records@.len() && i != s
                ==> #[trigger] after.records@[i] == before.records@[i]
            &&& before.records@.len() <= after.records@.len()
        }
    }

    /// An empty store.
    pub fn new() -> (r: CertStore)
        ensures
            r.wf(),
            r.slots().len() == 0,
            forall|n: Seq<char>| #[trigger] r.lookup(n).is_none(),
            r.loader().is_none(),
    {
        CertStore { records: Vec::new(), names: Vec::new(), host_config_loader: None }
    }

    /// The slot that a name is bound to.
    fn find_slot(&self, n: &String) -> (r: Option<usize>)
        ensures
            match r {
                Some(s) => self.slot_of(n@) == Some(s as int),
                None => self.slot_of(n@).is_none(),
            },
    {
        let mut found: Option<usize> = None;
        let mut k: usize = 0;
        while k < self.names.len()
            invariant
                k <= self.names@.len(),
                match found {
                    Some(j) => find_name(self.names@.subrange(0, k as int), n@) == Some(j as int)
                        && j < self.names@.len(),
                    None => find_name(self.names@.subrange(0, k as int), n@).is_none(),
                },
            decreases self.names@.len() - k,
        {
            assert(self.names@.subrange(0, k + 1).drop_last() =~= self.names@.subrange(0, k as int));
            if found.is_none() && self.names[k].0 == *n {
                found = Some(k);
            }
            k = k + 1;
        }
        assert(self.names@.subrange(0, self.names@.len() as int) =~= self.names@);
        match found {
            Some(j) => Some(self.names[j].1),
            None => None,
        }
    }

    /// Binds name `n` to slot `s`; every other name keeps its binding.
    fn bind(&mut self, n: &String, s: usize)
        requires
            old(self).wf(),
            s < old(self).records@.len(),
        ensures
            final(self).wf(),
            final(self).records == old(self).records,
            final(self).host_config_loader == old(self).host_config_loader,
            forall|m: Seq<char>| #[trigger] final(self).slot_of(m) == if m == n@ {
                Some(s as int)
            } else {
                old(self).slot_of(m)
            },
    {
        let ghost before = self.names@;
        let mut found: Option<usize> = None;
        let mut k: usize = 0;
        while k < self.names.len()
            invariant
                k <= self.names@.len(),
                match found {
                    Some(j) => find_name(self.names@.subrange(0, k as int), n@) == Some(j as int)
                        && j < self.names@.len(),
                    None => find_name(self.names@.subrange(0, k as int), n@).is_none(),
                },
            decreases self.names@.len() - k,
        {
            assert(self.names@.subrange(0, k + 1).drop_last() =~= self.names@.subrange(0, k as int));
            if found.is_none() && self.names[k].0 == *n {
                found = Some(k);
            }
            k = k + 1;
        }
        assert(self.names@.subrange(0, self.names@.len() as int) =~= self.names@);
        proof {
            lemma_find_name_bounds(before, n@);
        }
        match found {
            Some(j) => {
                let key = n.clone();
                self.names.set(j, (key, s));
                proof {
                    assert forall|m: Seq<char>| #[trigger] self.slot_of(m) == if m == n@ {
                        Some(s as int)
                    } else {
                        old(self).slot_of(m)
                    } by {
                        lemma_find_name_same_names(self.names@, before, m);
                        lemma_find_name_bounds(before, m);
                    }
                }
            },
            None => {
                self.names.push((n.clone(), s));
                proof {
                    assert(self.names@.drop_last() =~= before);
                    assert forall|m: Seq<char>| #[trigger] self.slot_of(m) == if m == n@ {
                        Some(s as int)
                    } else {
                        old(self).slot_of(m)
                    } by {
                        lemma_find_name_bounds(before, m);
                    }
                }
            },
        }
    }

    /// Binds every name of `ns` to slot `s`.
    fn bind_all(&mut self, ns: &Vec<String>, s: usize)
        requires
            old(self).wf(),
            s < old(self).records@.len(),
        ensures
            final(self).wf(),
            final(self).records == old(self).records,
            final(self).host_config_loader == old(self).host_config_loader,
            forall|m: Seq<char>| #[trigger] final(self).slot_of(m) == if names_cover(ns@, m) {
                Some(s as int)
            } else {
                old(self).slot_of(m)
            },
    {
        let mut i: usize = 0;
        while i < ns.len()
            invariant
                i <= ns@.len(),
                self.wf(),
                s < self.records@.len(),
                self.records == old(self).records,
                self.host_config_loader == old(self).host_config_loader,
                forall|m: Seq<char>| #[trigger] self.slot_of(m) == if names_cover(ns@.subrange(0, i as int), m) {
                    Some(s as int)
                } else {
                    old(self).slot_of(m)
                },
            decreases ns@.len() - i,
        {
            self.bind(&ns[i], s);
            proof {
                assert forall|m: Seq<char>| names_cover(ns@.subrange(0, i + 1), m) == (names_cover(
                    ns@.subrange(0, i as int),
                    m,
                ) || m == ns@[i as int]@) by {
                    if names_cover(ns@.subrange(0, i + 1), m) {
                        let j = choose|j: int| 0 <= j < i + 1 && (#[trigger] ns@.subrange(0, i + 1)[j])@ == m;
                        if j < i {
                            assert(ns@.subrange(0, i as int)[j] == ns@.subrange(0, i + 1)[j]);
                        }
                    }
                    if names_cover(ns@.subrange(0, i as int), m) {
                        let j = choose|j: int| 0 <= j < i && (#[trigger] ns@.subrange(0, i as int)[j])@ == m;
                        assert(ns@.subrange(0, i + 1)[j] == ns@.subrange(0, i as int)[j]);
                    }
                    if m == ns@[i as int]@ {
                        assert(ns@.subrange(0, i + 1)[i as int] == ns@[i as int]);
                    }
                }
            }
            i = i + 1;
        }
        assert(ns@.subrange(0, ns@.len() as int) =~= ns@);
    }

    /// The record reached under a hostname.
    pub fn get_cert(&self, server_name: &str) -> (r: Option<&Certificate>)
        ensures
            match r {
                Some(c) => self.lookup(server_name@) == Some(*c),
                None => self.lookup(server_name@).is_none(),
            },
    {
        let key = server_name.to_owned();
        match self.find_slot(&key) {
            Some(s) => if s < self.records.len() {
                Some(&self.records[s])
            } else {
                None
            },
            None => None,
        }
    }

    /// Places `cert` in the slot of its primary name (a new slot if that
    /// name is unbound) and binds its names and `extra` to that slot.
    fn install_with(&mut self, cert: Certificate, extra: &Vec<String>)
        requires
            old(self).wf(),
        ensures
            final(self).wf(),
            CertStore::installed(*old(self), *final(self), cert, extra@),
            final(self).host_config_loader == old(self).host_config_loader,
    {
        let mut ns: Vec<String> = Vec::new();
        ns.push(cert.host_name.clone());
        if let Some(aliases) = &cert.host_names {
            let mut copies = copy_names(aliases);
            ns.append(&mut copies);
        }
        assert(ns@ =~= record_names(cert));
        let ghost before = *self;
        proof {
            lemma_find_name_bounds(self.names@, cert.host_name@);
        }
        let slot = self.find_slot(&cert.host_name);
        let reuse = match slot {
            Some(s) => s < self.records.len() && self.records[s].host_name == cert.host_name,
            None => false,
        };
        let s = if reuse {
            let s = slot.unwrap();
            self.records.set(s, cert);
            s
        } else {
            self.records.push(cert);
            self.records.len() - 1
        };
        let ghost mid = *self;
        assert forall|i: int| 0 <= i < self.names@.len() implies (#[trigger] self.names@[i]).1 < self.records@.len() by {
            assert(before.names@[i].1 < before.records@.len());
        }
        assert(self.slot_of(cert.host_name@) == before.slot_of(cert.host_name@));
        self.bind_all(&ns, s);
        self.bind_all(extra, s);
        proof {
            assert(forall|n: Seq<char>| #[trigger] mid.slot_of(n) == before.slot_of(n));
            let after = *self;
            assert(after.records@[s as int] == cert);
        }
    }

    /// Installs a record under its primary name and each alias, in one step.
    pub fn install(&mut self, cert: Certificate)
        requires
            old(self).wf(),
        ensures
            final(self).wf(),
            CertStore::installed(*old(self), *final(self), cert, Seq::empty()),
            final(self).loader() == old(self).loader(),
    {
        let none: Vec<String> = Vec::new();
        self.install_with(cert, &none);
    }

    /// Binds one hostname to a record of its own.
    pub fn set_cert(&mut self, server_name: &str, cert: Certificate)
        requires
            old(self).wf(),
        ensures
            final(self).wf(),
            final(self).lookup(server_name@) == Some(cert),
            forall|m: Seq<char>| m != server_name@ ==> #[trigger] final(self).lookup(m) == old(self).lookup(m),
            final(self).loader() == old(self).loader(),
    {
        self.records.push(cert);
        let s = self.records.len() - 1;
        let key = server_name.to_owned();
        assert forall|i: int| 0 <= i < self.names@.len() implies (#[trigger] self.names@[i]).1 < self.records@.len() by {
            assert(old(self).names@[i].1 < old(self).records@.len());
        }
        let ghost mid = *self;
        assert forall|m: Seq<char>| #[trigger] mid.lookup(m) == old(self).lookup(m) by {
            match old(self).slot_of(m) {
                Some(p) => {
                    lemma_find_name_bounds(old(self).names@, m);
                    let k = find_name(old(self).names@, m).unwrap();
                    assert(old(self).names@[k].1 < old(self).records@.len());
                },
                None => {},
            }
        }
        self.bind(&key, s);
        assert forall|m: Seq<char>| m != server_name@ implies #[trigger] self.lookup(m) == old(self).lookup(m) by {
            assert(self.slot_of(m) == mid.slot_of(m));
            assert(mid.lookup(m) == old(self).lookup(m));
        }
    }

    /// Installs the record read for a routing entry (a placeholder carrying
    /// only the entry when none was read), bound under the record's own names
    /// and the entry's names.
    pub fn host_config_to_cert(&mut self, host_config: HostConfig, loaded: Option<Certificate>)
        requires
            old(self).wf(),
        ensures
            final(self).wf(),
            final(self).loader() == old(self).loader(),
            exists|c: Certificate|
                #![trigger entry_record(c, host_config, loaded)]
                entry_record(c, host_config, loaded) && c.host_config == Some(host_config)
                    && CertStore::installed(*old(self), *final(self), c, host_config.all_names()),
    {
        let mut extra: Vec<String> = Vec::new();
        extra.push(host_config.host_name.clone());
        if let Some(aliases) = &host_config.aliases {
            let mut copies = copy_names(aliases);
            extra.append(&mut copies);
        }
        assert(extra@ =~= host_config.all_names());
        let mut cert = match loaded {
            Some(c) => c,
            None => Certificate::new(host_config.host_name.clone()),
        };
        cert.host_config = Some(host_config);
        let ghost c = cert;
        assert(entry_record(c, host_config, loaded));
        self.install_with(cert, &extra);
    }

    /// Slot `t` holds a record installed for the entry `hc` (with `l` read
    /// for it), and every name of the entry is bound to `t`.
    closed spec fn holds_entry(&self, hc: HostConfig, l: Option<Certificate>) -> bool {
        exists|c: Certificate, t: int|
            #![trigger entry_record(c, hc, l), self.records@[t]]
            entry_record(c, hc, l) && 0 <= t < self.records@.len() && self.records@[t] == c
                && names_cover(entry_names(hc, l), c.host_name@) && forall|n: Seq<char>|
                #[trigger] names_cover(hc.all_names(), n) ==> self.slot_of(n) == Some(t)
    }

    /// Installs the records of a whole routing table, in table order;
    /// `loaded[i]` is what was read for entry `i`. Each entry whose names no
    /// later entry brings ends up with every one of its names reaching the
    /// record installed for it.
    pub fn load_certs_from_host_config_list(
        &mut self,
        host_config_list: &HostConfigList,
        loaded: Vec<Option<Certificate>>,
    )
        requires
            old(self).wf(),
            loaded@.len() == host_config_list.host_configs@.len(),
        ensures
            final(self).wf(),
            final(self).loader() == old(self).loader(),
            table_installed(*final(self), host_config_list.host_configs@, loaded@),
    {
        let ghost table = host_config_list.host_configs@;
        let ghost loaded0 = loaded@;
        let mut loaded = loaded;
        let mut i: usize = 0;
        let n = host_config_list.host_configs.len();
        while i < n
            invariant
                n == host_config_list.host_configs@.len(),
                table == host_config_list.host_configs@,
                loaded0.len() == n,
                i <= n,
                loaded@ == loaded0.subrange(i as int, n as int),
                self.wf(),
                self.host_config_loader == old(self).host_config_loader,
                forall|a: int, j: int|
                    0 <= a < i && 0 <= j < table[a].all_names().len()
                        ==> (#[trigger] self.slot_of(table[a].all_names()[j]@)).is_some(),
                forall|a: int|
                    0 <= a < i && #[trigger] unclaimed_between(table, loaded0, a, i as int) ==> self.holds_entry(
                        table[a],
                        loaded0[a],
                    ),
            decreases n - i,
        {
            let hc = host_config_list.host_configs[i].copy();
            let entry = loaded.remove(0);
            assert(entry == loaded0[i as int]);
            assert(loaded@ =~= loaded0.subrange(i + 1, n as int));
            let ghost before = *self;
            self.host_config_to_cert(hc, entry);
            proof {
                let ci = choose|c: Certificate|
                    #![trigger entry_record(c, hc, entry)]
                    entry_record(c, hc, entry) && c.host_config == Some(hc) && CertStore::installed(
                        before,
                        *self,
                        c,
                        hc.all_names(),
                    );
                let si = installed_slot(before, *self, ci, hc.all_names());
                let ei = entry_names(table[i as int], entry);
                lemma_same_names(hc, table[i as int]);
                assert(entry_record(ci, table[i as int], entry));
                lemma_entry_primary(ci, table[i as int], entry);
                assert forall|a: int, j: int|
                    0 <= a < i + 1 && 0 <= j < table[a].all_names().len()
                        implies (#[trigger] self.slot_of(table[a].all_names()[j]@)).is_some() by {
                    let m = table[a].all_names()[j]@;
                    if a == i {
                        assert(hc.all_names()[j]@ == m);
                        assert(names_cover(hc.all_names(), m));
                    } else {
                        assert(before.slot_of(m).is_some());
                    }
                }
                assert forall|a: int|
                    0 <= a < i + 1 && #[trigger] unclaimed_between(table, loaded0, a, i + 1) implies self.holds_entry(
                        table[a],
                        loaded0[a],
                    ) by {
                    if a < i {
                        assert(unclaimed_between(table, loaded0, a, i as int));
                        assert(before.holds_entry(table[a], loaded0[a]));
                        let (c, t) = choose|c: Certificate, t: int|
                            #![trigger entry_record(c, table[a], loaded0[a]), before.records@[t]]
                            entry_record(c, table[a], loaded0[a]) && 0 <= t < before.records@.len()
                                && before.records@[t] == c && names_cover(entry_names(table[a], loaded0[a]), c.host_name@)
                                && forall|n: Seq<char>|
                                #[trigger] names_cover(table[a].all_names(), n) ==> before.slot_of(n) == Some(t);
                        assert(!names_cover(ei, c.host_name@));
                        assert(c.host_name@ != ci.host_name@);
                        assert(t != si);
                        assert(self.records@[t] == c);
                        assert forall|m: Seq<char>| #[trigger] names_cover(table[a].all_names(), m) implies self.slot_of(m)
                            == Some(t) by {
                            lemma_cover_concat(table[a].all_names(), match loaded0[a] {
                                Some(l) => record_names(l),
                                None => Seq::empty(),
                            }, m);
                            assert(names_cover(entry_names(table[a], loaded0[a]), m));
                            assert(!names_cover(ei, m));
                            if names_cover(record_names(ci), m) {
                                lemma_entry_record_names(ci, table[i as int], entry, m);
                            }
                            if names_cover(hc.all_names(), m) {
                                lemma_cover_concat(table[i as int].all_names(), match entry {
                                    Some(l) => record_names(l),
                                    None => Seq::empty(),
                                }, m);
                            }
                        }
                    } else {
                        assert forall|m: Seq<char>| #[trigger] names_cover(table[a].all_names(), m) implies self.slot_of(m)
                            == Some(si) by {
                            assert(names_cover(hc.all_names(), m));
                        }
                        assert(entry_record(ci, table[a], loaded0[a]));
                        assert(self.records@[si] == ci);
                    }
                }
            }
            i = i + 1;
        }
        proof {
            assert forall|i: int|
                0 <= i < table.len() && #[trigger] unclaimed_between(table, loaded0, i, table.len() as int)
                    implies exists|c: Certificate|
                    #![trigger entry_record(c, table[i], loaded0[i])]
                    entry_record(c, table[i], loaded0[i]) && forall|n: Seq<char>|
                        #[trigger] names_cover(table[i].all_names(), n) ==> self.lookup(n) == Some(c) by {
                assert(self.holds_entry(table[i], loaded0[i]));
                let (c, t) = choose|c: Certificate, t: int|
                    #![trigger entry_record(c, table[i], loaded0[i]), self.records@[t]]
                    entry_record(c, table[i], loaded0[i]) && 0 <= t < self.records@.len() && self.records@[t] == c
                        && names_cover(entry_names(table[i], loaded0[i]), c.host_name@) && forall|n: Seq<char>|
                        #[trigger] names_cover(table[i].all_names(), n) ==> self.slot_of(n) == Some(t);
                assert forall|n: Seq<char>| #[trigger] names_cover(table[i].all_names(), n) implies self.lookup(n)
                    == Some(c) by {
                    assert(self.slot_of(n) == Some(t));
                }
            }
        }
    }

    /// Sets the loader that refreshes the routing table.
    pub fn set_host_config_loader(&mut self, host_config_loader: HostsConfigLoader)
        ensures
            final(self).loader() == Some(host_config_loader),
            final(self).slots() == old(self).slots(),
            forall|m: Seq<char>| #[trigger] final(self).lookup(m) == old(self).lookup(m),
            old(self).wf() ==> final(self).wf(),
    {
        self.host_config_loader = Some(host_config_loader);
    }

    /// One tick of the refresh: when a loader is set and the routing table
    /// was re-read (`reloaded`, with `loaded[i]` read for its entry `i`), the
    /// table's records are installed and the loader keeps the new table;
    /// otherwise nothing changes.
    pub fn refresh_hosts(&mut self, reloaded: Option<HostConfigList>, loaded: Vec<Option<Certificate>>)
        requires
            old(self).wf(),
            reloaded matches Some(t) ==> loaded@.len() == t.host_configs@.len(),
        ensures
            final(self).wf(),
            match (old(self).loader(), reloaded) {
                (Some(_), Some(t)) => final(self).loader() == Some((HostsConfigLoader { config_list: t }))
                    && table_installed(*final(self), t.host_configs@, loaded@),
                _ => {
                    &&& final(self).loader() == old(self).loader()
                    &&& final(self).slots() == old(self).slots()
                    &&& forall|m: Seq<char>| #[trigger] final(self).lookup(m) == old(self).lookup(m)
                },
            },
    {
        if self.host_config_loader.is_none() {
            return;
        }
        if let Some(table) = reloaded {
            self.load_certs_from_host_config_list(&table, loaded);
            let ghost after_load = *self;
            if let Some(loader) = &mut self.host_config_loader {
                loader.refresh_hosts_config(Some(table));
            }
            assert(forall|m: Seq<char>| #[trigger] self.slot_of(m) == after_load.slot_of(m));
            assert(forall|m: Seq<char>| #[trigger] self.lookup(m) == after_load.lookup(m));
        }
    }

    /// Every bound hostname, in binding order.
    pub fn hostnames(&self) -> (r: Vec<String>)
        ensures
            r@ == self.bound_names(),
    {
        let mut r: Vec<String> = Vec::new();
        let mut i: usize = 0;
        while i < self.names.len()
            invariant
                i <= self.names@.len(),
                r@ == self.names@.subrange(0, i as int).map_values(|e: (String, usize)| e.0),
            decreases self.names@.len() - i,
        {
            r.push(self.names[i].0.clone());
            assert(r@ =~= self.names@.subrange(0, i + 1).map_values(|e: (String, usize)| e.0));
            i = i + 1;
        }
        assert(self.names@.subrange(0, self.names@.len() as int) =~= self.names@);
        r
    }

    /// The upstream address that requests for `host` go to.
    pub fn upstream_for(&self, host: &str) -> (r: Result<String, RouteError>)
        ensures
            match self.lookup(host@) {
                None => r == Err::<String, RouteError>(RouteError::UnknownHost),
                Some(c) => match c.host_config {
                    None => r == Err::<String, RouteError>(RouteError::NoRouting),
                    Some(hc) => r == Ok::<String, RouteError>(hc.upstream_address),
                },
            },
    {
        match self.get_cert(host) {
            None => Err(RouteError::UnknownHost),
            Some(c) => match &c.host_config {
                None => Err(RouteError::NoRouting),
                Some(hc) => Ok(hc.upstream_address.clone()),
            },
        }
    }

    /// The primary names of the records whose leaf expires within
    /// `threshold_days` days after `now`, in slot order.
    pub fn renewal_candidates(&self, now: i64, threshold_days: u32) -> (r: Vec<String>)
        ensures
            r@ == due_names(self.slots(), now, threshold_days),
    {
        let mut r: Vec<String> = Vec::new();
        let mut i: usize = 0;
        while i < self.records.len()
            invariant
                i <= self.records@.len(),
                r@ == due_names(self.records@.subrange(0, i as int), now, threshold_days),
            decreases self.records@.len() - i,
        {
            assert(self.records@.subrange(0, i + 1).drop_last() =~= self.records@.subrange(0, i as int));
            assert(self.records@.subrange(0, i + 1).last() == self.records@[i as int]);
            if let Ok(true) = self.records[i].needs_renewal(now, threshold_days) {
                r.push(self.records[i].host_name.clone());
            }
            i = i + 1;
        }
        assert(self.records@.subrange(0, self.records@.len() as int) =~= self.records@);
        r
    }
}

/// The slot that an install put its record in.
proof fn installed_slot(before: CertStore, after: CertStore, cert: Certificate, extra: Seq<String>) -> (s: int)
    requires
        CertStore::installed(before, after, cert, extra),
    ensures
        0 <= s < after.records@.len(),
        after.records@[s] == cert,
        s == match before.replaced_slot(cert.host_name@) {
            Some(p) => p,
            None => before.records@.len() as int,
        },
        forall|n: Seq<char>| #[trigger] after.slot_of(n) == if names_cover(record_names(cert), n)
            || names_cover(extra, n) {
            Some(s)
        } else {
            before.slot_of(n)
        },
        forall|i: int| 0 <= i < before.records@.len() && i != s
            ==> #[trigger] after.records@[i] == before.records@[i],
        before.records@.len() <= after.records@.len(),
{
    choose|s: int| {
        &&& 0 <= s < after.records@.len()
        &&& after.records@[s] == cert
        &&& s == match before.replaced_slot(cert.host_name@) {
            Some(p) => p,
            None => before.records@.len() as int,
        }
        &&& forall|n: Seq<char>| #[trigger] after.slot_of(n) == if names_cover(record_names(cert), n)
            || names_cover(extra, n) {
            Some(s)
        } else {
            before.slot_of(n)
        }
        &&& forall|i: int| 0 <= i < before.records@.len() && i != s
            ==> #[trigger] after.records@[i] == before.records@[i]
        &&& before.records@.len() <= after.records@.len()
    }
}

/// The primary name of a record is among the names it is installed under.
pub proof fn lemma_primary_in_record_names(c: Certificate)
    ensures
        names_cover(record_names(c), c.host_name@),
{
    assert(record_names(c)[0] == c.host_name);
}

/// After an install, each name it was given (the record's own names and
/// the extra ones) reaches the installed record, through the slot of the
/// record's primary name.
pub proof fn lemma_installed_names(
    before: CertStore,
    after: CertStore,
    cert: Certificate,
    extra: Seq<String>,
    h: Seq<char>,
)
    requires
        CertStore::installed(before, after, cert, extra),
        names_cover(record_names(cert), h) || names_cover(extra, h),
    ensures
        after.slot_of(h).is_some(),
        after.lookup(h) == Some(cert),
        after.lookup(cert.host_name@) == Some(cert),
        after.slot_of(h) == after.slot_of(cert.host_name@),
{
    let s = installed_slot(before, after, cert, extra);
    lemma_primary_in_record_names(cert);
    assert(after.slot_of(h) == Some(s));
    assert(after.slot_of(cert.host_name@) == Some(s));
}

/// Once a record is installed, every name it was installed under reaches
/// it, and each such name, each alias and the primary name reach it through
/// one and the same slot.
pub proof fn lemma_install_aliases_agree(before: CertStore, after: CertStore, cert: Certificate, h: Seq<char>)
    requires
        CertStore::installed(before, after, cert, Seq::empty()),
        names_cover(record_names(cert), h),
    ensures
        after.slot_of(h).is_some(),
        after.lookup(h) == Some(cert),
        after.lookup(cert.host_name@) == Some(cert),
        after.slot_of(h) == after.slot_of(cert.host_name@),
        forall|a: Seq<char>|
            #![trigger names_cover(opt_names(cert.host_names), a)]
            names_cover(opt_names(cert.host_names), a) ==> after.lookup(a) == Some(cert)
                && after.slot_of(a) == after.slot_of(h),
{
    lemma_installed_names(before, after, cert, Seq::empty(), h);
    let names = record_names(cert);
    assert forall|a: Seq<char>|
        #![trigger names_cover(opt_names(cert.host_names), a)]
        names_cover(opt_names(cert.host_names), a) implies after.lookup(a) == Some(cert) && after.slot_of(a)
            == after.slot_of(h) by {
        let j = choose|j: int| 0 <= j < opt_names(cert.host_names).len() && (#[trigger] opt_names(cert.host_names)[j])@ == a;
        assert(names[j + 1] == opt_names(cert.host_names)[j]);
        assert(names_cover(names, a));
        lemma_installed_names(before, after, cert, Seq::empty(), a);
    }
}

/// Installing a record replaces the record with the same primary name under
/// every name that reached the replaced one: each such name now reaches the
/// new record.
pub proof fn lemma_install_replaces(before: CertStore, after: CertStore, cert: Certificate, n: Seq<char>)
    requires
        CertStore::installed(before, after, cert, Seq::empty()),
        before.lookup(cert.host_name@) matches Some(r) && r.host_name@ == cert.host_name@,
        before.slot_of(n) == before.slot_of(cert.host_name@),
    ensures
        after.lookup(n) == Some(cert),
{
    let s = installed_slot(before, after, cert, Seq::empty());
    assert(before.replaced_slot(cert.host_name@) == before.slot_of(cert.host_name@));
    assert(after.slot_of(n) == Some(s));
}

/// A name of either part is a name of the concatenation.
proof fn lemma_cover_concat(x: Seq<String>, y: Seq<String>, n: Seq<char>)
    ensures
        names_cover(x, n) || names_cover(y, n) ==> names_cover(x + y, n),
{
    if names_cover(x, n) {
        let i = choose|i: int| 0 <= i < x.len() && (#[trigger] x[i])@ == n;
        assert((x + y)[i] == x[i]);
    } else if names_cover(y, n) {
        let i = choose|i: int| 0 <= i < y.len() && (#[trigger] y[i])@ == n;
        assert((x + y)[x.len() + i] == y[i]);
    }
}

/// Entries with the same contents have the same names.
proof fn lemma_same_names(a: HostConfig, b: HostConfig)
    requires
        a.same_as(&b),
    ensures
        a.all_names() == b.all_names(),
{
    assert(opt_names(a.aliases) == opt_names(b.aliases));
}

/// The names of a record installed for an entry are among the names the
/// entry brings.
proof fn lemma_entry_record_names(c: Certificate, hc: HostConfig, l: Option<Certificate>, n: Seq<char>)
    requires
        entry_record(c, hc, l),
        names_cover(record_names(c), n),
    ensures
        names_cover(entry_names(hc, l), n),
{
    let extra = match l {
        Some(r) => record_names(r),
        None => Seq::<String>::empty(),
    };
    match l {
        Some(r) => {
            assert(record_names(c) == record_names(r));
            lemma_cover_concat(hc.all_names(), extra, n);
        },
        None => {
            let i = choose|i: int| 0 <= i < record_names(c).len() && (#[trigger] record_names(c)[i])@ == n;
            assert(record_names(c).len() == 1);
            assert(hc.all_names()[0] == hc.host_name);
            lemma_cover_concat(hc.all_names(), extra, n);
        },
    }
}

/// The primary name of a record installed for an entry is among the names
/// the entry brings.
proof fn lemma_entry_primary(c: Certificate, hc: HostConfig, l: Option<Certificate>)
    requires
        entry_record(c, hc, l),
    ensures
        names_cover(entry_names(hc, l), c.host_name@),
{
    lemma_primary_in_record_names(c);
    lemma_entry_record_names(c, hc, l, c.host_name@);
}

} // verus!
