//! Auto-listener reconciliation: the desired set of public listeners is
//! computed from the manager's service snapshot, and one reconcile step
//! says which running listeners to stop, which to start, and what runs
//! afterwards. The application owns the sockets and tasks; it performs the
//! stops and starts this step decides.

use vstd::prelude::*;

use crate::manager::ServiceSnapshot;
use crate::text;

verus! {

/// Tunables for auto-listened UDP services.
#[derive(Debug, Clone, PartialEq, Eq)]
pub struct AutoListenOptions {
    /// How long to keep per-peer UDP flows alive without activity (ms).
    pub udp_flow_idle_timeout_ms: u64,
}

impl Default for AutoListenOptions {
    /// Sixty seconds of per-flow idle time.
    fn default() -> (r: AutoListenOptions)
        ensures
            r.udp_flow_idle_timeout_ms == 60000,
    {
        AutoListenOptions { udp_flow_idle_timeout_ms: 60000 }
    }
}

/// The descriptor of one wanted listener.
#[derive(Debug, Clone, PartialEq, Eq)]
pub struct DesiredSvc {
    pub client_id: String,
    pub name: String,
    pub proto: String,
    pub addr: String,
}

/// The plain-value shadow of a listener descriptor.
pub ghost struct DesiredView {
    pub client_id: Seq<char>,
    pub name: Seq<char>,
    pub proto: Seq<char>,
    pub addr: Seq<char>,
}

impl View for DesiredSvc {
    type V = DesiredView;

    open spec fn view(&self) -> DesiredView {
        DesiredView {
            client_id: self.client_id@,
            name: self.name@,
            proto: self.proto@,
            addr: self.addr@,
        }
    }
}

/// Whether the list holds this descriptor.
pub open spec fn has_desc(s: Seq<DesiredSvc>, d: DesiredView) -> bool {
    exists|i: int| 0 <= i < s.len() && (#[trigger] s[i])@ == d
}

/// Whether the list holds this `client_id/name` key.
pub open spec fn has_key(s: Seq<DesiredSvc>, cid: Seq<char>, name: Seq<char>) -> bool {
    exists|i: int| 0 <= i < s.len() && (#[trigger] s[i]).client_id@ == cid && s[i].name@ == name
}

/// At most one listener per `client_id/name` key.
pub open spec fn unique_keys(s: Seq<DesiredSvc>) -> bool {
    forall|i: int, j: int|
        0 <= i < j < s.len() ==> !((#[trigger] s[i]).client_id@ == (#[trigger] s[j]).client_id@
            && s[i].name@ == s[j].name@)
}

/// Pairwise distinct descriptors.
pub open spec fn unique_descs(s: Seq<DesiredSvc>) -> bool {
    forall|i: int, j: int| 0 <= i < j < s.len() ==> (#[trigger] s[i])@ != (#[trigger] s[j])@
}

fn find_key(s: &Vec<DesiredSvc>, cid: &str, name: &str) -> (r: Option<usize>)
    ensures
        r matches Some(i) ==> i < s@.len() && s@[i as int].client_id@ == cid@ && s@[
        i as int].name@ == name@,
        r is None ==> forall|k: int|
            0 <= k < s@.len() ==> !((#[trigger] s@[k]).client_id@ == cid@ && s@[k].name@
                == name@),
{
    let n = s.len();
    let mut i: usize = 0;
    while i < n
        invariant
            i <= n == s@.len(),
            forall|k: int|
                0 <= k < i ==> !((#[trigger] s@[k]).client_id@ == cid@ && s@[k].name@ == name@),
        decreases n - i,
    {
        if text::str_eq(s[i].client_id.as_str(), cid) && text::str_eq(s[i].name.as_str(), name) {
            return Some(i);
        }
        i = i + 1;
    }
    None
}

/// The desired descriptor of one snapshot row, or `None` when the service
/// is skipped: route-only services, empty names or client ids, and empty
/// remote addresses are not exposed. The proto defaults to `tcp`.
pub open spec fn spec_desired_of(s: &ServiceSnapshot) -> Option<DesiredView> {
    let name = text::spec_trim(s.service.name@);
    let cid = text::spec_trim(s.client_id@);
    let remote = text::spec_trim(s.service.remote_addr@);
    let proto = if text::spec_trim_lower(s.service.proto@).len() == 0 {
        "tcp"@
    } else {
        text::spec_trim_lower(s.service.proto@)
    };
    if name.len() == 0 || s.service.route_only || cid.len() == 0 || remote.len() == 0 {
        None
    } else {
        Some(DesiredView { client_id: cid, name, proto, addr: remote })
    }
}

/// Whether some snapshot row wants this descriptor.
pub open spec fn from_snapshot(snaps: Seq<ServiceSnapshot>, d: DesiredView) -> bool {
    exists|j: int| 0 <= j < snaps.len() && spec_desired_of(&#[trigger] snaps[j]) == Some(d)
}

/// Computes the desired listener set from a snapshot, in snapshot order,
/// keyed by `client_id/name`: a later row with the same key replaces the
/// earlier one, so each key runs at most one listener.
pub fn desired_services(snaps: &Vec<ServiceSnapshot>) -> (r: Vec<DesiredSvc>)
    ensures
        unique_keys(r@),
        forall|k: int| 0 <= k < r@.len() ==> from_snapshot(snaps@, (#[trigger] r@[k])@),
        forall|j: int|
            0 <= j < snaps@.len() ==> (#[trigger] spec_desired_of(&snaps@[j]) matches Some(d)
                ==> has_key(r@, d.client_id, d.name)),
{
    let mut out: Vec<DesiredSvc> = Vec::new();
    let n = snaps.len();
    let mut i: usize = 0;
    while i < n
        invariant
            i <= n == snaps@.len(),
            unique_keys(out@),
            forall|k: int| 0 <= k < out@.len() ==> from_snapshot(snaps@, (#[trigger] out@[k])@),
            forall|j: int|
                0 <= j < i ==> (#[trigger] spec_desired_of(&snaps@[j]) matches Some(d)
                    ==> has_key(out@, d.client_id, d.name)),
        decreases n - i,
    {
        let s = &snaps[i];
        let name = text::trim_str(s.service.name.as_str());
        let cid = text::trim_str(s.client_id.as_str());
        let remote = text::trim_str(s.service.remote_addr.as_str());
        let mut proto = text::trim_lower_str(s.service.proto.as_str());
        if proto.as_str().unicode_len() == 0 {
            proto = String::from_str("tcp");
        }
        let ghost out_pre = out@;
        if name.as_str().unicode_len() == 0 || s.service.route_only || cid.as_str().unicode_len()
            == 0 || remote.as_str().unicode_len() == 0 {
        } else {
            let entry = DesiredSvc { client_id: cid, name, proto, addr: remote };
            match find_key(&out, entry.client_id.as_str(), entry.name.as_str()) {
                Some(slot_i) => {
                    let slot = vstd::std_specs::vec::vec_index_mut(&mut out, slot_i);
                    *slot = entry;
                    proof {
                        assert(out@ =~= out_pre.update(slot_i as int, out@[slot_i as int]));
                        assert(spec_desired_of(&snaps@[i as int]) == Some(out@[slot_i as int]@));
                        assert(from_snapshot(snaps@, out@[slot_i as int]@));
                        assert(forall|k: int|
                            0 <= k < out@.len() ==> ((#[trigger] out@[k]).client_id@
                                == out_pre[k].client_id@ && out@[k].name@ == out_pre[k].name@));
                    }
                },
                None => {
                    out.push(entry);
                    proof {
                        assert(forall|k: int|
                            0 <= k < out_pre.len() ==> #[trigger] out@[k] == out_pre[k]);
                        assert(spec_desired_of(&snaps@[i as int]) == Some(out@.last()@));
                        assert(from_snapshot(snaps@, out@.last()@));
                    }
                },
            }
        }
        proof {
            assert forall|j: int|
                0 <= j < i + 1 implies (#[trigger] spec_desired_of(&snaps@[j]) matches Some(d)
                    ==> has_key(out@, d.client_id, d.name)) by {
                if spec_desired_of(&snaps@[j]) is Some {
                    let d0 = spec_desired_of(&snaps@[j])->Some_0;
                    if j < i {
                        if has_key(out_pre, d0.client_id, d0.name) {
                            let k0 = choose|k: int|
                                0 <= k < out_pre.len() && (#[trigger] out_pre[k]).client_id@
                                    == d0.client_id && out_pre[k].name@ == d0.name;
                            assert(out@[k0].client_id@ == d0.client_id && out@[k0].name@
                                == d0.name);
                        }
                    }
                }
            }
        }
        i = i + 1;
    }
    out
}

fn desc_eq(a: &DesiredSvc, b: &DesiredSvc) -> (r: bool)
    ensures
        r == (a@ == b@),
{
    text::str_eq(a.client_id.as_str(), b.client_id.as_str()) && text::str_eq(
        a.name.as_str(),
        b.name.as_str(),
    ) && text::str_eq(a.proto.as_str(), b.proto.as_str()) && text::str_eq(
        a.addr.as_str(),
        b.addr.as_str(),
    )
}

fn find_desc(s: &Vec<DesiredSvc>, d: &DesiredSvc) -> (r: bool)
    ensures
        r == has_desc(s@, d@),
{
    let n = s.len();
    let mut i: usize = 0;
    while i < n
        invariant
            i <= n == s@.len(),
            forall|k: int| 0 <= k < i ==> (#[trigger] s@[k])@ != d@,
        decreases n - i,
    {
        if desc_eq(&s[i], d) {
            return true;
        }
        i = i + 1;
    }
    false
}

/// One reconcile step. Returns `(running_after, to_stop, to_start)`:
/// running listeners whose descriptor is no longer desired (gone, or any
/// of client id, name, proto or address changed) are stopped; desired
/// descriptors not yet running are started; afterwards exactly the desired
/// descriptors run. When the running set already equals the desired set,
/// the step stops nothing, starts nothing, and leaves the running list as
/// it was — reconciling twice without a change in between is a no-op.
pub fn reconcile_listeners(running: Vec<DesiredSvc>, desired: &Vec<DesiredSvc>) -> (r: (
    Vec<DesiredSvc>,
    Vec<DesiredSvc>,
    Vec<DesiredSvc>,
))
    ensures
        forall|k: int| 0 <= k < r.0@.len() ==> has_desc(desired@, (#[trigger] r.0@[k])@),
        forall|k: int| 0 <= k < desired@.len() ==> has_desc(r.0@, (#[trigger] desired@[k])@),
        forall|k: int|
            0 <= k < r.1@.len() ==> !has_desc(desired@, (#[trigger] r.1@[k])@) && has_desc(
                running@,
                r.1@[k]@,
            ),
        forall|k: int|
            0 <= k < r.2@.len() ==> !has_desc(running@, (#[trigger] r.2@[k])@) && has_desc(
                desired@,
                r.2@[k]@,
            ),
        ((forall|k: int| 0 <= k < running@.len() ==> has_desc(desired@, (#[trigger] running@[k])@))
            && (forall|k: int|
            0 <= k < desired@.len() ==> has_desc(running@, (#[trigger] desired@[k])@))) ==> (
        r.0@ == running@ && r.1@.len() == 0 && r.2@.len() == 0),
        (unique_descs(running@) && unique_descs(desired@)) ==> unique_descs(r.0@),
{
    let ghost distinct = unique_descs(running@) && unique_descs(desired@);
    let mut kept: Vec<DesiredSvc> = Vec::new();
    let mut stopped: Vec<DesiredSvc> = Vec::new();
    let mut rest = running;
    let ghost all = rest@;
    while rest.len() != 0
        invariant
            rest@.len() <= all.len(),
            all.subrange(all.len() - rest@.len(), all.len() as int) == rest@,
            forall|k: int| 0 <= k < kept@.len() ==> has_desc(desired@, (#[trigger] kept@[k])@),
            forall|k: int| 0 <= k < kept@.len() ==> has_desc(all, (#[trigger] kept@[k])@),
            forall|k: int|
                0 <= k < stopped@.len() ==> !has_desc(desired@, (#[trigger] stopped@[k])@)
                    && has_desc(all, stopped@[k]@),
            forall|k: int|
                0 <= k < all.len() - rest@.len() ==> (has_desc(desired@, (#[trigger] all[k])@)
                    ==> has_desc(kept@, all[k]@)),
            distinct == (unique_descs(all) && unique_descs(desired@)),
            distinct ==> unique_descs(kept@) && unique_descs(rest@) && (forall|a: int, b: int|
                0 <= a < kept@.len() && 0 <= b < rest@.len() ==> (#[trigger] kept@[a])@ != (
                #[trigger] rest@[b])@),
            (forall|k: int|
                0 <= k < all.len() ==> has_desc(desired@, (#[trigger] all[k])@)) ==> (
            stopped@.len() == 0 && kept@ + rest@ == all),
        decreases rest@.len(),
    {
        let ghost pre = rest@;
        let x = rest.remove(0);
        proof {
            assert(pre[0] == x);
            assert(pre.drop_first() =~= rest@);
            assert(x == all[all.len() - pre.len()]);
        }
        let ghost kept_pre = kept@;
        if find_desc(desired, &x) {
            kept.push(x);
            proof {
                assert(forall|k: int|
                    0 <= k < kept_pre.len() ==> #[trigger] kept@[k] == kept_pre[k]);
                assert(kept@.last()@ == all[all.len() - pre.len()]@);
                assert forall|k: int|
                    0 <= k < all.len() - rest@.len() implies (has_desc(
                        desired@,
                        (#[trigger] all[k])@,
                    ) ==> has_desc(kept@, all[k]@)) by {
                    if k < all.len() - pre.len() && has_desc(desired@, all[k]@) {
                        let k0 = choose|q: int|
                            0 <= q < kept_pre.len() && (#[trigger] kept_pre[q])@ == all[k]@;
                        assert(kept@[k0]@ == all[k]@);
                    }
                }
                if forall|k: int| 0 <= k < all.len() ==> has_desc(desired@, (#[trigger] all[k])@) {
                    assert(kept@ + rest@ =~= all);
                }
            }
        } else {
            stopped.push(x);
            proof {
                assert(stopped@.last()@ == all[all.len() - pre.len()]@);
                assert(!has_desc(desired@, all[all.len() - pre.len()]@));
                if forall|k: int| 0 <= k < all.len() ==> has_desc(desired@, (#[trigger] all[k])@) {
                    assert(has_desc(desired@, all[all.len() - pre.len()]@));
                    assert(false);
                }
            }
        }
    }
    proof {
        if forall|k: int| 0 <= k < all.len() ==> has_desc(desired@, (#[trigger] all[k])@) {
            assert(kept@ + rest@ =~= kept@);
        }
    }
    let mut started: Vec<DesiredSvc> = Vec::new();
    let mut out = kept;
    let nd = desired.len();
    let mut j: usize = 0;
    while j < nd
        invariant
            j <= nd == desired@.len(),
            forall|k: int| 0 <= k < out@.len() ==> has_desc(desired@, (#[trigger] out@[k])@),
            forall|k: int| 0 <= k < j ==> has_desc(out@, (#[trigger] desired@[k])@),
            forall|k: int|
                0 <= k < started@.len() ==> !has_desc(all, (#[trigger] started@[k])@) && has_desc(
                    desired@,
                    started@[k]@,
                ),
            forall|k: int| 0 <= k < stopped@.len() ==> !has_desc(desired@, (#[trigger] stopped@[k])@)
                && has_desc(all, stopped@[k]@),
            forall|k: int|
                0 <= k < all.len() ==> (has_desc(desired@, (#[trigger] all[k])@) ==> has_desc(
                    out@,
                    all[k]@,
                )),
            ((forall|k: int| 0 <= k < all.len() ==> has_desc(desired@, (#[trigger] all[k])@))
                && (forall|k: int|
                0 <= k < desired@.len() ==> has_desc(all, (#[trigger] desired@[k])@))) ==> (
            stopped@.len() == 0 && started@.len() == 0 && out@ == all),
            forall|k: int|
                0 <= k < out@.len() ==> has_desc(all, (#[trigger] out@[k])@) || has_desc(
                    started@,
                    out@[k]@,
                ),
            distinct ==> unique_descs(out@),
        decreases nd - j,
    {
        let ghost out_pre = out@;
        let ghost started_pre = started@;
        if find_desc(&out, &desired[j]) {
        } else {
            let d = DesiredSvc {
                client_id: desired[j].client_id.clone(),
                name: desired[j].name.clone(),
                proto: desired[j].proto.clone(),
                addr: desired[j].addr.clone(),
            };
            proof {
                assert(d@ == desired@[j as int]@);
            }
            started.push(d);
            let d2 = DesiredSvc {
                client_id: desired[j].client_id.clone(),
                name: desired[j].name.clone(),
                proto: desired[j].proto.clone(),
                addr: desired[j].addr.clone(),
            };
            proof {
                assert(d2@ == desired@[j as int]@);
            }
            out.push(d2);
            proof {
                assert(forall|k: int| 0 <= k < out_pre.len() ==> #[trigger] out@[k] == out_pre[k]);
                assert(forall|k: int|
                    0 <= k < started_pre.len() ==> #[trigger] started@[k] == started_pre[k]);
                assert(out@.last()@ == desired@[j as int]@);
                assert(started@.last()@ == desired@[j as int]@);
                assert(!has_desc(all, desired@[j as int]@)) by {
                    if has_desc(all, desired@[j as int]@) {
                        let k0 = choose|k: int|
                            0 <= k < all.len() && (#[trigger] all[k])@ == desired@[j as int]@;
                        assert(has_desc(out_pre, all[k0]@));
                        let k1 = choose|q: int|
                            0 <= q < out_pre.len() && (#[trigger] out_pre[q])@ == all[k0]@;
                        assert(out_pre[k1]@ == desired@[j as int]@);
                    }
                }
                assert forall|k: int|
                    0 <= k < all.len() implies (has_desc(desired@, (#[trigger] all[k])@)
                        ==> has_desc(out@, all[k]@)) by {
                    if has_desc(desired@, all[k]@) {
                        let k1 = choose|q: int|
                            0 <= q < out_pre.len() && (#[trigger] out_pre[q])@ == all[k]@;
                        assert(out@[k1]@ == all[k]@);
                    }
                }
                assert forall|k: int|
                    0 <= k < out@.len() implies has_desc(all, (#[trigger] out@[k])@) || has_desc(
                        started@,
                        out@[k]@,
                    ) by {
                    if k < out_pre.len() {
                        if has_desc(started_pre, out_pre[k]@) {
                            let q = choose|q: int|
                                0 <= q < started_pre.len() && (#[trigger] started_pre[q])@
                                    == out_pre[k]@;
                            assert(started@[q]@ == out@[k]@);
                        }
                    } else {
                        assert(started@.last()@ == out@[k]@);
                    }
                }
            }
        }
        proof {
            assert forall|k: int| 0 <= k < j + 1 implies has_desc(
                out@,
                (#[trigger] desired@[k])@,
            ) by {
                if k < j {
                    let k0 = choose|q: int|
                        0 <= q < out_pre.len() && (#[trigger] out_pre[q])@ == desired@[k]@;
                    assert(out@[k0]@ == desired@[k]@);
                } else {
                    if has_desc(out_pre, desired@[j as int]@) {
                        let k0 = choose|q: int|
                            0 <= q < out_pre.len() && (#[trigger] out_pre[q])@ == desired@[
                            j as int]@;
                        assert(out@[k0]@ == desired@[j as int]@);
                    } else {
                        assert(out@.last()@ == desired@[j as int]@);
                    }
                }
            }
        }
        j = j + 1;
    }
    (out, stopped, started)
}

} // verus!
