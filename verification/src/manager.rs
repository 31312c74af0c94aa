//! Tunnel manager: the registry of connected clients and their advertised
//! services, and the primary map that gives each service name one owning
//! client. First writer wins on registration; on removal, ownership is
//! promoted to the oldest surviving client still providing the name.
//!
//! The registry invariant — every primary entry names a surviving client
//! that provides the service, and every service provided by any surviving
//! client has a primary entry — is stated as `manager_inv` and proved to be
//! preserved by `register_client` and `unregister_client`.
//!
//! Transport sessions are owned by the application, keyed by the client id;
//! this module only decides.

use vstd::prelude::*;

use crate::text;
use crate::wire::RegisteredService;

verus! {

#[derive(Debug, Clone, Copy, PartialEq, Eq, Structural)]
pub enum ManagerError {
    ServiceNotFound,
}

/// One connected client: its id, its normalized services, the remote
/// address it connected from, and its connect timestamp (milliseconds).
pub struct ClientEntry {
    pub id: String,
    pub services: Vec<RegisteredService>,
    pub remote: String,
    pub started: u64,
}

/// One row of the primary map: this service name is served by this client.
pub struct PrimaryEntry {
    pub name: String,
    pub client_id: String,
}

/// Whether client `c` provides a service named `name`.
pub open spec fn client_has(c: &ClientEntry, name: Seq<char>) -> bool {
    exists|k: int| 0 <= k < c.services@.len() && (#[trigger] c.services@[k]).name@ == name
}

/// Unique service names within one service list.
pub open spec fn services_unique(svcs: Seq<RegisteredService>) -> bool {
    forall|i: int, j: int|
        0 <= i < j < svcs.len() ==> (#[trigger] svcs[i]).name@ != (#[trigger] svcs[j]).name@
}

/// Unique service names within every client.
pub open spec fn clients_services_unique(clients: Seq<ClientEntry>) -> bool {
    forall|c: int| 0 <= c < clients.len() ==> services_unique((#[trigger] clients[c]).services@)
}

/// A primary entry names the oldest surviving client providing the
/// service (ties allowed).
pub open spec fn entry_oldest(clients: Seq<ClientEntry>, e: PrimaryEntry) -> bool {
    exists|c: int|
        0 <= c < clients.len() && (#[trigger] clients[c]).id@ == e.client_id@ && client_has(
            &clients[c],
            e.name@,
        ) && (forall|d: int|
            0 <= d < clients.len() && client_has(&#[trigger] clients[d], e.name@) ==> clients[d]
                .started >= clients[c].started)
}

/// A primary entry names a surviving client providing the service.
pub open spec fn entry_valid(clients: Seq<ClientEntry>, p: PrimaryEntry) -> bool {
    exists|c: int|
        0 <= c < clients.len() && (#[trigger] clients[c]).id@ == p.client_id@ && client_has(
            &clients[c],
            p.name@,
        )
}

/// Some primary entry carries this service name.
pub open spec fn name_has_primary(primary: Seq<PrimaryEntry>, name: Seq<char>) -> bool {
    exists|p: int| 0 <= p < primary.len() && (#[trigger] primary[p]).name@ == name
}

/// Every service provided by a surviving client has a primary entry.
pub open spec fn names_covered(clients: Seq<ClientEntry>, primary: Seq<PrimaryEntry>) -> bool {
    forall|c: int, k: int|
        0 <= c < clients.len() && 0 <= k < (#[trigger] clients[c]).services@.len()
            ==> name_has_primary(primary, (#[trigger] clients[c].services@[k]).name@)
}

pub open spec fn unique_client_ids(clients: Seq<ClientEntry>) -> bool {
    forall|i: int, j: int|
        0 <= i < j < clients.len() ==> (#[trigger] clients[i]).id@ != (#[trigger] clients[j]).id@
}

pub open spec fn unique_primary_names(primary: Seq<PrimaryEntry>) -> bool {
    forall|i: int, j: int|
        0 <= i < j < primary.len() ==> (#[trigger] primary[i]).name@ != (
        #[trigger] primary[j]).name@
}

/// The registry invariant: client ids unique, primary names unique, each
/// client's service names unique, every primary entry names a surviving
/// client providing the service, and every provided service has a primary.
pub open spec fn manager_inv(clients: Seq<ClientEntry>, primary: Seq<PrimaryEntry>) -> bool {
    &&& unique_client_ids(clients)
    &&& unique_primary_names(primary)
    &&& clients_services_unique(clients)
    &&& forall|p: int| 0 <= p < primary.len() ==> entry_valid(clients, #[trigger] primary[p])
    &&& names_covered(clients, primary)
}

/// Client/service registry with primary election. The `changed` counter
/// bumps on every mutation so the auto-listener can reconcile.
pub struct Manager {
    pub id_seq: u64,
    pub clients: Vec<ClientEntry>,
    pub primary: Vec<PrimaryEntry>,
    pub changed: u64,
}

fn find_client(clients: &Vec<ClientEntry>, id: &str) -> (r: Option<usize>)
    ensures
        match r {
            Some(i) => i < clients@.len() && clients@[i as int].id@ == id@,
            None => forall|c: int| 0 <= c < clients@.len() ==> (#[trigger] clients@[c]).id@ != id@,
        },
{
    let n = clients.len();
    let mut i: usize = 0;
    while i < n
        invariant
            i <= n == clients@.len(),
            forall|c: int| 0 <= c < i ==> (#[trigger] clients@[c]).id@ != id@,
        decreases n - i,
    {
        if text::str_eq(clients[i].id.as_str(), id) {
            return Some(i);
        }
        i = i + 1;
    }
    None
}

fn find_primary(primary: &Vec<PrimaryEntry>, name: &str) -> (r: Option<usize>)
    ensures
        match r {
            Some(i) => i < primary@.len() && primary@[i as int].name@ == name@,
            None => forall|p: int| 0 <= p < primary@.len() ==> (#[trigger] primary@[p]).name@ != name@,
        },
{
    let n = primary.len();
    let mut i: usize = 0;
    while i < n
        invariant
            i <= n == primary@.len(),
            forall|p: int| 0 <= p < i ==> (#[trigger] primary@[p]).name@ != name@,
        decreases n - i,
    {
        if text::str_eq(primary[i].name.as_str(), name) {
            return Some(i);
        }
        i = i + 1;
    }
    None
}

fn find_service(services: &Vec<RegisteredService>, name: &str) -> (r: Option<usize>)
    ensures
        match r {
            Some(i) => i < services@.len() && services@[i as int].name@ == name@,
            None => forall|k: int|
                0 <= k < services@.len() ==> (#[trigger] services@[k]).name@ != name@,
        },
{
    let n = services.len();
    let mut i: usize = 0;
    while i < n
        invariant
            i <= n == services@.len(),
            forall|k: int| 0 <= k < i ==> (#[trigger] services@[k]).name@ != name@,
        decreases n - i,
    {
        if text::str_eq(services[i].name.as_str(), name) {
            return Some(i);
        }
        i = i + 1;
    }
    None
}

/// Elects the oldest surviving client providing `name`, when there is one,
/// and appends the entry. Requires that no entry for `name` exists.
fn promote_primary(clients: &Vec<ClientEntry>, primary: &mut Vec<PrimaryEntry>, name: &String)
    requires
        forall|p: int|
            0 <= p < old(primary)@.len() ==> (#[trigger] old(primary)@[p]).name@ != name@,
    ensures
        (exists|c: int| 0 <= c < clients@.len() && client_has(&clients@[c], name@))
            ==> (final(primary)@.len() == old(primary)@.len() + 1
                && final(primary)@.last().name@ == name@
                && entry_oldest(clients@, final(primary)@.last())),
        !(exists|c: int| 0 <= c < clients@.len() && client_has(&clients@[c], name@))
            ==> final(primary)@ == old(primary)@,
        forall|p: int|
            0 <= p < old(primary)@.len() ==> #[trigger] final(primary)@[p] == old(primary)@[p],
        final(primary)@.len() <= old(primary)@.len() + 1,
{
    let n = clients.len();
    let mut chosen: Option<usize> = None;
    let mut i: usize = 0;
    while i < n
        invariant
            i <= n == clients@.len(),
            match chosen {
                Some(c) => c < i && client_has(&clients@[c as int], name@) && (forall|d: int|
                    0 <= d < i && client_has(&clients@[d], name@) ==> (
                    #[trigger] clients@[d]).started >= clients@[c as int].started),
                None => forall|d: int| 0 <= d < i ==> !client_has(&#[trigger] clients@[d], name@),
            },
        decreases n - i,
    {
        let has = find_service(&clients[i].services, name.as_str());
        if has.is_some() {
            proof {
                assert(client_has(&clients@[i as int], name@));
            }
            match chosen {
                Some(c) => {
                    if clients[i].started < clients[c].started {
                        chosen = Some(i);
                    }
                },
                None => {
                    chosen = Some(i);
                },
            }
        } else {
            proof {
                assert(!client_has(&clients@[i as int], name@));
            }
        }
        i = i + 1;
    }
    match chosen {
        Some(c) => {
            let entry = PrimaryEntry { name: name.clone(), client_id: clients[c].id.clone() };
            primary.push(entry);
            proof {
                assert(primary@.last().name@ == name@);
                assert(entry_oldest(clients@, primary@.last()));
            }
        },
        None => {},
    }
}

/// Keeps one service per name; a later duplicate replaces the earlier one
/// in place.
fn dedup_by_name(services: Vec<RegisteredService>) -> (r: Vec<RegisteredService>)
    ensures
        services_unique(r@),
{
    let mut out: Vec<RegisteredService> = Vec::new();
    let mut rest = services;
    let ghost all = rest@;
    let ghost mut taken: int = 0;
    while rest.len() != 0
        invariant
            0 <= taken,
            taken + rest@.len() == all.len(),
            all.subrange(taken, all.len() as int) == rest@,
            services_unique(out@),
        decreases rest@.len(),
    {
        let s = rest.remove(0);
        proof {
            assert(s == all[taken]);
            assert(all.subrange(taken + 1, all.len() as int) =~= rest@);
        }
        match find_service(&out, s.name.as_str()) {
            Some(i) => {
                let ghost out_pre = out@;
                let slot = vstd::std_specs::vec::vec_index_mut(&mut out, i);
                *slot = s;
                proof {
                    assert(out@ =~= out_pre.update(i as int, all[taken]));
                    assert(forall|k: int|
                        0 <= k < out@.len() ==> (#[trigger] out@[k]).name@ == out_pre[k].name@);
                }
            },
            None => {
                out.push(s);
            },
        }
        proof {
            taken = taken + 1;
        }
    }
    out
}

/// Drops every primary entry owned by `idt` whose name the removed client
/// advertised, re-electing the oldest surviving provider for each such
/// name. Restores the full registry invariant.
fn reelect_after_removal(
    clients: &Vec<ClientEntry>,
    primary: &mut Vec<PrimaryEntry>,
    removed_services: &Vec<RegisteredService>,
    idt: &String,
)
    requires
        unique_client_ids(clients@),
        clients_services_unique(clients@),
        services_unique(removed_services@),
        forall|c: int| 0 <= c < clients@.len() ==> (#[trigger] clients@[c]).id@ != idt@,
        unique_primary_names(old(primary)@),
        forall|p: int|
            0 <= p < old(primary)@.len() ==> entry_valid(clients@, #[trigger] old(primary)@[p])
                || ((old(primary)@[p]).client_id@ == idt@ && exists|k: int|
                0 <= k < removed_services@.len() && (#[trigger] removed_services@[k]).name@ == (
                old(primary)@[p]).name@),
        names_covered(clients@, old(primary)@),
    ensures
        manager_inv(clients@, final(primary)@),
        forall|p: int|
            0 <= p < old(primary)@.len() && (#[trigger] old(primary)@[p]).client_id@ != idt@
                ==> exists|q: int|
                0 <= q < final(primary)@.len() && (#[trigger] final(primary)@[q]).name@
                    == old(primary)@[p].name@ && final(primary)@[q].client_id@
                    == old(primary)@[p].client_id@,
        forall|q: int|
            0 <= q < final(primary)@.len() ==> (exists|p: int|
                0 <= p < old(primary)@.len() && (#[trigger] old(primary)@[p]).name@ == (
                #[trigger] final(primary)@[q]).name@ && old(primary)@[p].client_id@
                    == final(primary)@[q].client_id@) || entry_oldest(clients@, final(primary)@[q]),
{
    let ghost pm_orig = old(primary)@;
    let n = removed_services.len();
    let mut k: usize = 0;
    while k < n
        invariant
            k <= n == removed_services@.len(),
            unique_client_ids(clients@),
            clients_services_unique(clients@),
            services_unique(removed_services@),
            forall|c: int| 0 <= c < clients@.len() ==> (#[trigger] clients@[c]).id@ != idt@,
            unique_primary_names(primary@),
            forall|p: int|
                0 <= p < primary@.len() ==> entry_valid(clients@, #[trigger] primary@[p]) || ((
                primary@[p]).client_id@ == idt@ && exists|k2: int|
                    k <= k2 < removed_services@.len() && (#[trigger] removed_services@[k2]).name@
                        == (primary@[p]).name@),
            names_covered(clients@, primary@),
            forall|p: int|
                0 <= p < pm_orig.len() && (#[trigger] pm_orig[p]).client_id@ != idt@
                    ==> exists|q: int|
                    0 <= q < primary@.len() && (#[trigger] primary@[q]).name@ == pm_orig[p].name@
                        && primary@[q].client_id@ == pm_orig[p].client_id@,
            forall|q: int|
                0 <= q < primary@.len() ==> (exists|p: int|
                    0 <= p < pm_orig.len() && (#[trigger] pm_orig[p]).name@ == (
                    #[trigger] primary@[q]).name@ && pm_orig[p].client_id@ == primary@[q]
                        .client_id@) || entry_oldest(clients@, primary@[q]),
        decreases n - k,
    {
        let name = &removed_services[k].name;
        let ghost name_v = name@;
        match find_primary(primary, name.as_str()) {
            Some(pi) => {
                if text::str_eq(primary[pi].client_id.as_str(), idt.as_str()) {
                    let ghost pm_pre = primary@;
                    let removed_entry = primary.remove(pi);
                    proof {
                        assert(primary@ =~= pm_pre.remove(pi as int));
                        assert forall|q: int| 0 <= q < primary@.len() implies #[trigger] primary@[q]
                            == (if q < pi { pm_pre[q] } else { pm_pre[q + 1] }) by {}
                        // no entry named name_v remains
                        assert forall|q: int|
                            0 <= q < primary@.len() implies (#[trigger] primary@[q]).name@
                                != name_v by {
                            if q < pi {
                                assert(pm_pre[q].name@ != pm_pre[pi as int].name@);
                            } else {
                                assert(pm_pre[q + 1].name@ != pm_pre[pi as int].name@);
                            }
                        }
                    }
                    let ghost pm_mid = primary@;
                    promote_primary(clients, primary, name);
                    proof {
                        // uniqueness: the prefix kept its names, the appended
                        // entry (if any) is the only one named name_v
                        assert forall|i: int, j: int|
                            0 <= i < j < primary@.len() implies (#[trigger] primary@[i]).name@
                                != (#[trigger] primary@[j]).name@ by {
                            if j < pm_mid.len() {
                            } else {
                                assert(primary@[j].name@ == name_v);
                                assert(primary@[i] == pm_mid[i]);
                            }
                        }
                        // validity-or-dangling for the new list
                        assert forall|p: int|
                            0 <= p < primary@.len() implies entry_valid(
                                clients@,
                                #[trigger] primary@[p],
                            ) || ((primary@[p]).client_id@ == idt@ && exists|k2: int|
                                k + 1 <= k2 < removed_services@.len() && (
                                #[trigger] removed_services@[k2]).name@ == (
                                primary@[p]).name@) by {
                            if p < pm_mid.len() {
                                assert(primary@[p] == pm_mid[p]);
                                let q = if p < pi { p } else { p + 1 };
                                assert(pm_mid[p] == pm_pre[q]);
                                if !entry_valid(clients@, pm_pre[q]) {
                                    let k2 = choose|k2: int|
                                        k <= k2 < removed_services@.len() && (
                                        removed_services@[k2]).name@ == (pm_pre[q]).name@;
                                    assert(pm_pre[q].name@ != name_v);
                                    assert(removed_services@[k as int].name@ == name_v);
                                    assert(k2 != k);
                                }
                            }
                        }
                        // coverage: only the entry named name_v was dropped,
                        // and promotion re-added one exactly when a surviving
                        // provider exists
                        assert forall|c: int, k4: int|
                            0 <= c < clients@.len() && 0 <= k4 < (
                            #[trigger] clients@[c]).services@.len() implies name_has_primary(
                            primary@,
                            (#[trigger] clients@[c].services@[k4]).name@,
                        ) by {
                            let sname = clients@[c].services@[k4].name@;
                            if sname == name_v {
                                assert(client_has(&clients@[c], name_v));
                                assert(exists|cc: int|
                                    0 <= cc < clients@.len() && client_has(
                                        &clients@[cc],
                                        name_v,
                                    ));
                                assert(primary@.last().name@ == name_v);
                                assert(primary@[primary@.len() - 1].name@ == sname);
                            } else {
                                assert(name_has_primary(pm_pre, sname));
                                let p0 = choose|p: int|
                                    0 <= p < pm_pre.len() && (#[trigger] pm_pre[p]).name@
                                        == sname;
                                assert(p0 != pi);
                                let q = if p0 < pi { p0 } else { p0 - 1 };
                                assert(pm_mid[q] == pm_pre[p0]);
                                assert(primary@[q] == pm_mid[q]);
                            }
                        }
                        
                    }
                } else {
                    proof {
                        assert forall|p: int|
                            0 <= p < primary@.len() implies entry_valid(
                                clients@,
                                #[trigger] primary@[p],
                            ) || ((primary@[p]).client_id@ == idt@ && exists|k2: int|
                                k + 1 <= k2 < removed_services@.len() && (
                                #[trigger] removed_services@[k2]).name@ == (
                                primary@[p]).name@) by {
                            if !entry_valid(clients@, primary@[p]) {
                                let k2 = choose|k2: int|
                                    k <= k2 < removed_services@.len() && (
                                    removed_services@[k2]).name@ == (primary@[p]).name@;
                                if k2 == k {
                                    assert(primary@[p].name@ == name_v);
                                    assert(p == pi) by {
                                        if p != pi {
                                            assert(primary@[p].name@ != primary@[pi as int].name@);
                                        }
                                    }
                                    assert(primary@[pi as int].client_id@ != idt@);
                                    assert(false);
                                }
                            }
                        }
                    }
                }
            },
            None => {
                proof {
                    assert forall|p: int|
                        0 <= p < primary@.len() implies entry_valid(
                            clients@,
                            #[trigger] primary@[p],
                        ) || ((primary@[p]).client_id@ == idt@ && exists|k2: int|
                            k + 1 <= k2 < removed_services@.len() && (
                            #[trigger] removed_services@[k2]).name@ == (primary@[p]).name@) by {
                        if !entry_valid(clients@, primary@[p]) {
                            let k2 = choose|k2: int|
                                k <= k2 < removed_services@.len() && (removed_services@[k2]).name@
                                    == (primary@[p]).name@;
                            if k2 == k {
                                assert(primary@[p].name@ == name_v);
                                assert(false);
                            }
                        }
                    }
                }
            },
        }
        k = k + 1;
    }
}

/// A snapshot row handed to the auto-listener and the admin surface.
#[derive(Debug, Clone, PartialEq, Eq)]
pub struct ServiceSnapshot {
    pub service: RegisteredService,
    pub client_id: String,
    pub remote: String,
    pub primary: bool,
}

impl Manager {
    /// An empty registry.
    pub fn new() -> (r: Manager)
        ensures
            r.id_seq == 1,
            r.clients@.len() == 0,
            r.primary@.len() == 0,
            r.changed == 0,
            manager_inv(r.clients@, r.primary@),
    {
        Manager { id_seq: 1, clients: Vec::new(), primary: Vec::new(), changed: 0 }
    }

    /// Mints the next client id, `<prefix>-<n>` (prefix defaulting to `c`).
    pub fn next_client_id(&mut self, prefix: &str) -> (r: String)
        ensures
            final(self).id_seq == vstd::wrapping::u64_specs::wrapping_add(old(self).id_seq, 1),
            final(self).clients == old(self).clients,
            final(self).primary == old(self).primary,
            final(self).changed == old(self).changed,
            r@ == (if text::spec_trim(prefix@).len() == 0 {
                "c"@
            } else {
                text::spec_trim(prefix@)
            }) + seq!['-'] + text::spec_dec_digits(old(self).id_seq as nat),
    {
        let mut p = text::trim_str(prefix);
        if p.as_str().unicode_len() == 0 {
            p = String::from_str("c");
        }
        text::push_char(&mut p, '-');
        text::append_decimal(&mut p, self.id_seq);
        self.id_seq = self.id_seq.wrapping_add(1);
        proof {
            assert(p@ =~= (if text::spec_trim(prefix@).len() == 0 {
                "c"@
            } else {
                text::spec_trim(prefix@)
            }) + seq!['-'] + text::spec_dec_digits(old(self).id_seq as nat));
        }
        p
    }

    /// Registers (or replaces) the client with this id: the services are
    /// normalized and deduplicated, a previous client with the same id
    /// loses its primaries to re-election first, and then the new client
    /// takes ownership of every service name nobody else owns (first
    /// writer wins). The registry invariant is preserved.
    pub fn register_client(
        &mut self,
        id: String,
        remote: String,
        services: Vec<RegisteredService>,
        started: u64,
    ) -> (r: Result<(), String>)
        requires
            manager_inv(old(self).clients@, old(self).primary@),
        ensures
            manager_inv(final(self).clients@, final(self).primary@),
            (r is Err) == (text::spec_trim(id@).len() == 0),
            r is Err ==> *final(self) == *old(self),
            r is Ok ==> exists|c: int|
                0 <= c < final(self).clients@.len()
                    && (#[trigger] final(self).clients@[c]).id@ == text::spec_trim(id@),
            r is Ok ==> final(self).changed == vstd::wrapping::u64_specs::wrapping_add(
                old(self).changed,
                1,
            ),
            final(self).id_seq == old(self).id_seq,
            r is Ok ==> forall|p: int|
                0 <= p < old(self).primary@.len() && (#[trigger] old(self).primary@[p]).client_id@
                    != text::spec_trim(id@) ==> exists|q: int|
                    0 <= q < final(self).primary@.len()
                        && (#[trigger] final(self).primary@[q]).name@
                        == old(self).primary@[p].name@
                        && final(self).primary@[q].client_id@ == old(self).primary@[p].client_id@,
    {
        let idt = text::trim_str(id.as_str());
        if idt.as_str().unicode_len() == 0 {
            return Err(String::from_str("tunnel: empty client id"));
        }
        let svcs = dedup_by_name(crate::wire::normalize_services(services));
        // a previous client with this id loses its primaries to re-election
        match find_client(&self.clients, idt.as_str()) {
            Some(i) => {
                let ghost cs_pre = self.clients@;
                let removed = self.clients.remove(i);
                proof {
                    assert(self.clients@ =~= cs_pre.remove(i as int));
                    assert forall|c: int|
                        0 <= c < self.clients@.len() implies (
                        #[trigger] self.clients@[c]).id@ != idt@ by {
                        if c < i {
                            assert(self.clients@[c] == cs_pre[c]);
                            assert(cs_pre[c].id@ != cs_pre[i as int].id@);
                        } else {
                            assert(self.clients@[c] == cs_pre[c + 1]);
                            assert(cs_pre[c + 1].id@ != cs_pre[i as int].id@);
                        }
                    }
                    assert(unique_client_ids(self.clients@)) by {
                        assert(forall|a: int, b: int|
                            0 <= a < b < self.clients@.len() ==> (
                            #[trigger] self.clients@[a]).id@ != (
                            #[trigger] self.clients@[b]).id@) by {
                            assert(forall|a: int|
                                0 <= a < self.clients@.len() ==> #[trigger] self.clients@[a]
                                    == (if a < i {
                                    cs_pre[a]
                                } else {
                                    cs_pre[a + 1]
                                }));
                        }
                    }
                    assert(clients_services_unique(self.clients@)) by {
                        assert(forall|a: int|
                            0 <= a < self.clients@.len() ==> #[trigger] self.clients@[a] == (
                            if a < i {
                                cs_pre[a]
                            } else {
                                cs_pre[a + 1]
                            }));
                    }
                    assert(services_unique(removed.services@));
                    // entries are valid against the shrunk list, or dangling
                    // with a name the removed client advertised
                    assert forall|p: int|
                        0 <= p < self.primary@.len() implies entry_valid(
                            self.clients@,
                            #[trigger] self.primary@[p],
                        ) || ((self.primary@[p]).client_id@ == idt@ && exists|k: int|
                            0 <= k < removed.services@.len() && (
                            #[trigger] removed.services@[k]).name@ == (
                            self.primary@[p]).name@) by {
                        let entry = self.primary@[p];
                        assert(entry_valid(cs_pre, entry));
                        let c0 = choose|c: int|
                            0 <= c < cs_pre.len() && (#[trigger] cs_pre[c]).id@
                                == entry.client_id@ && client_has(&cs_pre[c], entry.name@);
                        if c0 == i {
                            assert(entry.client_id@ == idt@);
                            assert(client_has(&removed, entry.name@));
                        } else {
                            let c1 = if c0 < i { c0 } else { c0 - 1 };
                            assert(self.clients@[c1] == cs_pre[c0]);
                        }
                    }
                    // remaining clients keep their coverage
                    assert forall|c: int, k: int|
                        0 <= c < self.clients@.len() && 0 <= k < (
                        #[trigger] self.clients@[c]).services@.len() implies name_has_primary(
                        self.primary@,
                        (#[trigger] self.clients@[c].services@[k]).name@,
                    ) by {
                        let c0 = if c < i { c } else { c + 1 };
                        assert(self.clients@[c] == cs_pre[c0]);
                    }
                }
                reelect_after_removal(&self.clients, &mut self.primary, &removed.services, &idt);
            },
            None => {},
        }
        // insert the new client, then let it own every unowned name
        let ghost cs_mid = self.clients@;
        let ghost pm_mid = self.primary@;
        let names = service_names(&svcs);
        self.clients.push(ClientEntry { id: idt.clone(), services: svcs, remote, started });
        proof {
            let cs = self.clients@;
            assert(cs.last().id@ == idt@);
            assert(forall|c: int| 0 <= c < cs_mid.len() ==> #[trigger] cs[c] == cs_mid[c]);
            assert(unique_client_ids(cs));
            assert(clients_services_unique(cs));
            assert forall|p: int|
                0 <= p < self.primary@.len() implies entry_valid(
                    cs,
                    #[trigger] self.primary@[p],
                ) by {
                let entry = self.primary@[p];
                assert(entry_valid(cs_mid, entry));
                let c0 = choose|c: int|
                    0 <= c < cs_mid.len() && (#[trigger] cs_mid[c]).id@ == entry.client_id@
                        && client_has(&cs_mid[c], entry.name@);
                assert(cs[c0] == cs_mid[c0]);
            }
        }
        proof {
            assert forall|p: int|
                0 <= p < old(self).primary@.len()
                    && (#[trigger] old(self).primary@[p]).client_id@ != idt@
                    implies exists|q: int|
                    0 <= q < self.primary@.len()
                        && (#[trigger] self.primary@[q]).name@ == old(self).primary@[p].name@
                        && self.primary@[q].client_id@ == old(self).primary@[p].client_id@ by {
                if self.primary@ == old(self).primary@ {
                    assert(self.primary@[p].name@ == old(self).primary@[p].name@);
                    assert(self.primary@[p].client_id@ == old(self).primary@[p].client_id@);
                }
            }
        }
        let nn = names.len();
        let mut j: usize = 0;
        while j < nn
            invariant
                j <= nn == names@.len(),
                self.changed == old(self).changed,
                self.id_seq == old(self).id_seq,
                self.clients@.len() == cs_mid.len() + 1,
                forall|c: int| 0 <= c < cs_mid.len() ==> #[trigger] self.clients@[c] == cs_mid[c],
                self.clients@.last().id@ == idt@,
                names@.len() == self.clients@.last().services@.len(),
                forall|k: int|
                    0 <= k < names@.len() ==> #[trigger] names@[k]@
                        == self.clients@.last().services@[k].name@,
                unique_client_ids(self.clients@),
                clients_services_unique(self.clients@),
                unique_primary_names(self.primary@),
                forall|p: int|
                    0 <= p < self.primary@.len() ==> entry_valid(
                        self.clients@,
                        #[trigger] self.primary@[p],
                    ),
                forall|c: int, k: int|
                    0 <= c < self.clients@.len() && 0 <= k < (
                    #[trigger] self.clients@[c]).services@.len() && (c < cs_mid.len() || k < j)
                        ==> name_has_primary(
                        self.primary@,
                        (#[trigger] self.clients@[c].services@[k]).name@,
                    ),
                forall|p: int|
                    0 <= p < old(self).primary@.len()
                        && (#[trigger] old(self).primary@[p]).client_id@ != idt@
                        ==> exists|q: int|
                        0 <= q < self.primary@.len()
                            && (#[trigger] self.primary@[q]).name@ == old(self).primary@[p].name@
                            && self.primary@[q].client_id@ == old(self).primary@[p].client_id@,
            decreases nn - j,
        {
            let ghost pm_pre = self.primary@;
            match find_primary(&self.primary, names[j].as_str()) {
                Some(_) => {
                    proof {
                        assert(names@[j as int]@ == self.clients@.last().services@[j as int].name@);
                        assert(name_has_primary(
                            self.primary@,
                            self.clients@.last().services@[j as int].name@,
                        ));
                    }
                },
                None => {
                    self.primary.push(PrimaryEntry { name: names[j].clone(), client_id: idt.clone() });
                    proof {
                        let pm = self.primary@;
                        assert(forall|p: int| 0 <= p < pm_pre.len() ==> #[trigger] pm[p] == pm_pre[p]);
                        assert(pm.last().name@ == names@[j as int]@);
                        assert(names@[j as int]@ == self.clients@.last().services@[j as int].name@);
                        assert(client_has(
                            &self.clients@.last(),
                            pm.last().name@,
                        )) by {
                            assert(self.clients@.last().services@[j as int].name@ == pm.last().name@);
                        }
                        assert(entry_valid(self.clients@, pm.last())) by {
                            assert(self.clients@[self.clients@.len() - 1] == self.clients@.last());
                        }
                        assert forall|p: int|
                            0 <= p < old(self).primary@.len()
                                && (#[trigger] old(self).primary@[p]).client_id@ != idt@
                                implies exists|q: int|
                                0 <= q < self.primary@.len()
                                    && (#[trigger] self.primary@[q]).name@
                                    == old(self).primary@[p].name@
                                    && self.primary@[q].client_id@
                                    == old(self).primary@[p].client_id@ by {
                            let q0 = choose|q: int|
                                0 <= q < pm_pre.len()
                                    && (#[trigger] pm_pre[q]).name@ == old(self).primary@[p].name@
                                    && pm_pre[q].client_id@ == old(self).primary@[p].client_id@;
                            assert(self.primary@[q0] == pm_pre[q0]);
                        }
                        assert forall|c: int, k: int|
                            0 <= c < self.clients@.len() && 0 <= k < (
                            #[trigger] self.clients@[c]).services@.len() && (c < cs_mid.len() || k
                                < j + 1) implies name_has_primary(
                            self.primary@,
                            (#[trigger] self.clients@[c].services@[k]).name@,
                        ) by {
                            let nm = self.clients@[c].services@[k].name@;
                            if c == self.clients@.len() - 1 && k == j {
                                assert(self.clients@[c] == self.clients@.last());
                                assert(pm.last().name@ == nm);
                            } else {
                                assert(name_has_primary(pm_pre, nm));
                                let p0 = choose|p: int|
                                    0 <= p < pm_pre.len() && (#[trigger] pm_pre[p]).name@ == nm;
                                assert(self.primary@[p0] == pm_pre[p0]);
                            }
                        }
                    }
                },
            }
            j = j + 1;
        }
        self.changed = self.changed.wrapping_add(1);
        proof {
            assert forall|c: int, k: int|
                0 <= c < self.clients@.len() && 0 <= k < (
                #[trigger] self.clients@[c]).services@.len() implies name_has_primary(
                self.primary@,
                (#[trigger] self.clients@[c].services@[k]).name@,
            ) by {
                assert(c < cs_mid.len() || k < nn);
            }
            assert(self.clients@[self.clients@.len() - 1].id@ == idt@);
        }
        Ok(())
    }

    /// Removes the client with this id, if present, and re-elects every
    /// primary it owned among the survivors. The registry invariant is
    /// preserved.
    pub fn unregister_client(&mut self, id: &str)
        requires
            manager_inv(old(self).clients@, old(self).primary@),
        ensures
            manager_inv(final(self).clients@, final(self).primary@),
            text::spec_trim(id@).len() > 0 ==> forall|c: int|
                0 <= c < final(self).clients@.len()
                    ==> (#[trigger] final(self).clients@[c]).id@ != text::spec_trim(id@),
            final(self).id_seq == old(self).id_seq,
            (text::spec_trim(id@).len() > 0 && (exists|c: int|
                0 <= c < old(self).clients@.len() && (#[trigger] old(self).clients@[c]).id@
                    == text::spec_trim(id@))) ==> final(self).changed
                == vstd::wrapping::u64_specs::wrapping_add(old(self).changed, 1),
            (text::spec_trim(id@).len() == 0 || !(exists|c: int|
                0 <= c < old(self).clients@.len() && (#[trigger] old(self).clients@[c]).id@
                    == text::spec_trim(id@))) ==> *final(self) == *old(self),
            (text::spec_trim(id@).len() > 0 && (exists|c: int|
                0 <= c < old(self).clients@.len() && (#[trigger] old(self).clients@[c]).id@
                    == text::spec_trim(id@))) ==> forall|p: int|
                0 <= p < old(self).primary@.len() && (#[trigger] old(self).primary@[p]).client_id@
                    != text::spec_trim(id@) ==> exists|q: int|
                    0 <= q < final(self).primary@.len()
                        && (#[trigger] final(self).primary@[q]).name@
                        == old(self).primary@[p].name@
                        && final(self).primary@[q].client_id@ == old(self).primary@[p].client_id@,
            (text::spec_trim(id@).len() > 0 && (exists|c: int|
                0 <= c < old(self).clients@.len() && (#[trigger] old(self).clients@[c]).id@
                    == text::spec_trim(id@))) ==> forall|q: int|
                0 <= q < final(self).primary@.len() ==> (exists|p: int|
                    0 <= p < old(self).primary@.len()
                        && (#[trigger] old(self).primary@[p]).name@
                        == (#[trigger] final(self).primary@[q]).name@
                        && old(self).primary@[p].client_id@
                        == final(self).primary@[q].client_id@) || entry_oldest(
                    final(self).clients@,
                    final(self).primary@[q],
                ),
    {
        let idt = text::trim_str(id);
        if idt.as_str().unicode_len() == 0 {
            proof {
                assert(text::spec_trim(id@).len() == 0);
            }
            return;
        }
        match find_client(&self.clients, idt.as_str()) {
            Some(i) => {
                let ghost cs_pre = self.clients@;
                let removed = self.clients.remove(i);
                proof {
                    assert(self.clients@ =~= cs_pre.remove(i as int));
                    assert(forall|a: int|
                        0 <= a < self.clients@.len() ==> #[trigger] self.clients@[a] == (if a < i {
                            cs_pre[a]
                        } else {
                            cs_pre[a + 1]
                        }));
                    assert forall|c: int|
                        0 <= c < self.clients@.len() implies (
                        #[trigger] self.clients@[c]).id@ != idt@ by {
                        if c < i {
                            assert(cs_pre[c].id@ != cs_pre[i as int].id@);
                        } else {
                            assert(cs_pre[c + 1].id@ != cs_pre[i as int].id@);
                        }
                    }
                    assert(unique_client_ids(self.clients@));
                    assert(clients_services_unique(self.clients@));
                    assert(services_unique(removed.services@));
                    assert forall|p: int|
                        0 <= p < self.primary@.len() implies entry_valid(
                            self.clients@,
                            #[trigger] self.primary@[p],
                        ) || ((self.primary@[p]).client_id@ == idt@ && exists|k: int|
                            0 <= k < removed.services@.len() && (
                            #[trigger] removed.services@[k]).name@ == (
                            self.primary@[p]).name@) by {
                        let entry = self.primary@[p];
                        assert(entry_valid(cs_pre, entry));
                        let c0 = choose|c: int|
                            0 <= c < cs_pre.len() && (#[trigger] cs_pre[c]).id@
                                == entry.client_id@ && client_has(&cs_pre[c], entry.name@);
                        if c0 == i {
                            assert(entry.client_id@ == idt@);
                            assert(client_has(&removed, entry.name@));
                        } else {
                            let c1 = if c0 < i { c0 } else { c0 - 1 };
                            assert(self.clients@[c1] == cs_pre[c0]);
                        }
                    }
                    assert forall|c: int, k: int|
                        0 <= c < self.clients@.len() && 0 <= k < (
                        #[trigger] self.clients@[c]).services@.len() implies name_has_primary(
                        self.primary@,
                        (#[trigger] self.clients@[c].services@[k]).name@,
                    ) by {
                        let c0 = if c < i { c } else { c + 1 };
                        assert(self.clients@[c] == cs_pre[c0]);
                    }
                }
                reelect_after_removal(&self.clients, &mut self.primary, &removed.services, &idt);
                self.changed = self.changed.wrapping_add(1);
            },
            None => {},
        }
    }

    /// Whether some client currently owns this service name.
    pub fn has_service(&self, service: &str) -> (r: bool)
        ensures
            r == name_has_primary(self.primary@, text::spec_trim(service@)),
    {
        let t = text::trim_str(service);
        match find_primary(&self.primary, t.as_str()) {
            Some(_) => true,
            None => false,
        }
    }

    /// Resolves the client that a `tunnel:<service>` dial should go to:
    /// the pinned client when one is given, else the primary owner. With a
    /// well-formed registry, an unpinned dial of an owned name always
    /// succeeds, and the returned client provides the service.
    pub fn service_owner(&self, client_id: Option<&str>, service: &str) -> (r: Result<
        (usize, usize),
        ManagerError,
    >)
        requires
            manager_inv(self.clients@, self.primary@),
        ensures
            r matches Ok((c, k)) ==> c < self.clients@.len() && k
                < self.clients@[c as int].services@.len() && self.clients@[c as int].services@[
                k as int].name@ == text::spec_trim(service@),
            client_id is None && name_has_primary(self.primary@, text::spec_trim(service@))
                && text::spec_trim(service@).len() > 0 ==> r is Ok,
            client_id matches Some(pin) ==> (r matches Ok((c, k))
                ==> self.clients@[c as int].id@ == text::spec_trim(pin@)),
    {
        let t = text::trim_str(service);
        if t.as_str().unicode_len() == 0 {
            return Err(ManagerError::ServiceNotFound);
        }
        let cid: String = match client_id {
            Some(pin) => text::trim_str(pin),
            None => {
                match find_primary(&self.primary, t.as_str()) {
                    Some(p) => self.primary[p].client_id.clone(),
                    None => {
                        return Err(ManagerError::ServiceNotFound);
                    },
                }
            },
        };
        let ghost pin_is_none = client_id is None;
        match find_client(&self.clients, cid.as_str()) {
            Some(c) => {
                match find_service(&self.clients[c].services, t.as_str()) {
                    Some(k) => Ok((c, k)),
                    None => {
                        proof {
                            if pin_is_none {
                                assert(false);
                            }
                        }
                        Err(ManagerError::ServiceNotFound)
                    },
                }
            },
            None => {
                proof {
                    if pin_is_none {
                        assert(false);
                    }
                }
                Err(ManagerError::ServiceNotFound)
            },
        }
    }

    /// The mutation counter, bumped by register and unregister; the
    /// auto-listener reconciles when it moves.
    pub fn changed(&self) -> (r: u64)
        ensures
            r == self.changed,
    {
        self.changed
    }
}

/// The names of a service list, in order.
fn service_names(svcs: &Vec<RegisteredService>) -> (r: Vec<String>)
    ensures
        r@.len() == svcs@.len(),
        forall|k: int| 0 <= k < r@.len() ==> #[trigger] r@[k]@ == svcs@[k].name@,
{
    let mut out: Vec<String> = Vec::new();
    let n = svcs.len();
    let mut i: usize = 0;
    while i < n
        invariant
            i <= n == svcs@.len(),
            out@.len() == i,
            forall|k: int| 0 <= k < i ==> #[trigger] out@[k]@ == svcs@[k].name@,
        decreases n - i,
    {
        out.push(svcs[i].name.clone());
        i = i + 1;
    }
    out
}

} // verus!
