//! The router: compiled host patterns, resolution from a routing host or
//! straight from a captured prelude, capture substitution in upstream
//! templates, and the three candidate-ordering strategies.

use vstd::prelude::*;

use crate::config::RouteConfig;
use crate::pattern;
use crate::pattern::GlobTok;
use crate::sandbox::ChainMiddleware;
use crate::sandbox::MiddlewareError;
use crate::text;

verus! {

// ---------------------------------------------------------------------------
// Strategies.
// ---------------------------------------------------------------------------

#[derive(Debug, Clone, Copy, PartialEq, Eq, Structural)]
pub enum Strategy {
    Sequential,
    Random,
    RoundRobin,
}

/// `_` and space count as dashes in strategy names.
pub open spec fn dash_char(c: char) -> char {
    if c == '_' || c == ' ' {
        '-'
    } else {
        c
    }
}

/// Collapses runs of dashes to a single dash.
pub open spec fn spec_collapse_dashes(s: Seq<char>) -> Seq<char>
    decreases s.len(),
{
    if s.len() == 0 {
        Seq::empty()
    } else if s.len() >= 2 && s[0] == '-' && s[1] == '-' {
        spec_collapse_dashes(s.drop_first())
    } else {
        seq![s[0]] + spec_collapse_dashes(s.drop_first())
    }
}

/// The normal form of a strategy name: trimmed, lowercased, separators
/// turned into single dashes.
pub open spec fn spec_strategy_norm(s: Seq<char>) -> Seq<char> {
    spec_collapse_dashes(text::spec_trim_lower(s).map_values(|c: char| dash_char(c)))
}

/// Which strategy a configured name selects; anything unrecognized falls
/// back to sequential.
pub open spec fn spec_strategy_of(s: Seq<char>) -> Strategy {
    let n = spec_strategy_norm(s);
    if n == "random"@ {
        Strategy::Random
    } else if n == "round-robin"@ || n == "roundrobin"@ {
        Strategy::RoundRobin
    } else {
        Strategy::Sequential
    }
}

fn exec_dash_char(c: char) -> (r: char)
    ensures
        r == dash_char(c),
{
    if c == '_' || c == ' ' {
        '-'
    } else {
        c
    }
}

/// Parses a strategy name.
pub fn parse_strategy(s: &str) -> (r: Strategy)
    ensures
        r == spec_strategy_of(s@),
{
    let t = text::trim_lower_str(s);
    let chars = pattern::str_to_chars(t.as_str());
    let mut dashed: Vec<char> = Vec::new();
    let n = chars.len();
    let mut i: usize = 0;
    while i < n
        invariant
            i <= n == chars@.len(),
            dashed@ == chars@.subrange(0, i as int).map_values(|c: char| dash_char(c)),
        decreases n - i,
    {
        dashed.push(exec_dash_char(chars[i]));
        proof {
            assert(dashed@ =~= chars@.subrange(0, i as int + 1).map_values(
                |c: char| dash_char(c),
            ));
        }
        i = i + 1;
    }
    proof {
        assert(chars@.subrange(0, n as int) =~= chars@);
    }
    let mut norm = String::new();
    let mut j: usize = 0;
    proof {
        assert(dashed@.skip(0) =~= dashed@);
    }
    while j < n
        invariant
            j <= n == dashed@.len(),
            spec_collapse_dashes(dashed@) == norm@ + spec_collapse_dashes(dashed@.skip(j as int)),
        decreases n - j,
    {
        let ghost tail = dashed@.skip(j as int);
        proof {
            assert(tail[0] == dashed@[j as int]);
            assert(tail.drop_first() =~= dashed@.skip(j as int + 1));
            if tail.len() >= 2 {
                assert(tail[1] == dashed@[j as int + 1]);
            }
        }
        if dashed[j] == '-' && j + 1 < n && dashed[j + 1] == '-' {
        } else {
            text::push_char(&mut norm, dashed[j]);
        }
        j = j + 1;
    }
    proof {
        assert(dashed@.skip(n as int) =~= Seq::<char>::empty());
        assert(norm@ + Seq::<char>::empty() =~= norm@);
    }
    if text::str_eq(norm.as_str(), "random") {
        Strategy::Random
    } else if text::str_eq(norm.as_str(), "round-robin") || text::str_eq(
        norm.as_str(),
        "roundrobin",
    ) {
        Strategy::RoundRobin
    } else {
        Strategy::Sequential
    }
}

// ---------------------------------------------------------------------------
// Capture substitution.
// ---------------------------------------------------------------------------

/// Left-to-right, non-overlapping replacement of `pat` by `rep`.
pub open spec fn spec_replace_all(s: Seq<char>, pat: Seq<char>, rep: Seq<char>) -> Seq<char>
    decreases s.len(),
{
    if pat.len() == 0 || s.len() == 0 {
        s
    } else if s.len() >= pat.len() && s.subrange(0, pat.len() as int) == pat {
        rep + spec_replace_all(s.skip(pat.len() as int), pat, rep)
    } else {
        seq![s[0]] + spec_replace_all(s.drop_first(), pat, rep)
    }
}

/// The literal `$k` placeholder.
pub open spec fn spec_dollar(k: nat) -> Seq<char> {
    seq!['$'] + text::spec_dec_digits(k)
}

/// The template after substituting groups `k` down to `1`.
pub open spec fn spec_subst_down(t: Seq<char>, groups: Seq<Seq<char>>, k: nat) -> Seq<char>
    recommends
        k <= groups.len(),
    decreases k,
{
    if k == 0 {
        t
    } else {
        spec_subst_down(
            spec_replace_all(t, spec_dollar(k), groups[k - 1]),
            groups,
            (k - 1) as nat,
        )
    }
}

/// Capture substitution: `$k` (highest `k` first, so `$10` is not eaten by
/// `$1`) replaced by the `k`-th captured group. An empty template or an
/// empty group list passes the template through.
pub open spec fn spec_substitute(t: Seq<char>, groups: Seq<Seq<char>>) -> Seq<char> {
    if t.len() == 0 || groups.len() == 0 {
        t
    } else {
        spec_subst_down(t, groups, groups.len())
    }
}

fn chars_match_at(s: &Vec<char>, i: usize, pat: &Vec<char>) -> (r: bool)
    requires
        i <= s@.len(),
    ensures
        r == (s@.len() - i >= pat@.len() && s@.skip(i as int).subrange(0, pat@.len() as int)
            == pat@),
{
    let n = s.len();
    if n - i < pat.len() {
        return false;
    }
    let mut k: usize = 0;
    while k < pat.len()
        invariant
            k <= pat@.len(),
            i + pat@.len() <= n == s@.len(),
            forall|m: int| 0 <= m < k ==> s@[i + m] == pat@[m],
        decreases pat@.len() - k,
    {
        if s[i + k] != pat[k] {
            proof {
                assert(s@.skip(i as int).subrange(0, pat@.len() as int)[k as int] == s@[i + k]);
            }
            return false;
        }
        k = k + 1;
    }
    proof {
        assert(s@.skip(i as int).subrange(0, pat@.len() as int) =~= pat@);
    }
    true
}

/// Replaces every occurrence of `pat` in `s` by `rep`, left to right.
pub fn replace_all(s: &str, pat: &str, rep: &str) -> (r: String)
    ensures
        r@ == spec_replace_all(s@, pat@, rep@),
{
    let sc = pattern::str_to_chars(s);
    let pc = pattern::str_to_chars(pat);
    if pc.len() == 0 {
        let mut out = String::new();
        out.append(s);
        return out;
    }
    let mut out = String::new();
    let n = sc.len();
    let mut i: usize = 0;
    proof {
        assert(sc@.skip(0) =~= sc@);
    }
    while i < n
        invariant
            i <= n == sc@.len(),
            pc@.len() > 0,
            sc@ == s@,
            pc@ == pat@,
            spec_replace_all(s@, pat@, rep@) == out@ + spec_replace_all(
                sc@.skip(i as int),
                pat@,
                rep@,
            ),
        decreases n - i,
    {
        let ghost tail = sc@.skip(i as int);
        proof {
            assert(tail[0] == sc@[i as int]);
            assert(tail.drop_first() =~= sc@.skip(i as int + 1));
        }
        if chars_match_at(&sc, i, &pc) {
            out.append(rep);
            proof {
                assert(tail.skip(pat@.len() as int) =~= sc@.skip(i + pat@.len()));
            }
            i = i + pc.len();
        } else {
            proof {
                if tail.len() >= pat@.len() {
                    assert(tail.subrange(0, pat@.len() as int) == sc@.skip(i as int).subrange(
                        0,
                        pat@.len() as int,
                    ));
                }
            }
            text::push_char(&mut out, sc[i]);
            i = i + 1;
        }
    }
    proof {
        assert(sc@.skip(n as int) =~= Seq::<char>::empty());
        assert(out@ + Seq::<char>::empty() =~= out@);
    }
    out
}

/// Substitutes `$1..$n` captures into an upstream or masquerade template,
/// from the highest index down.
pub fn substitute_params(template: &str, groups: &Vec<String>) -> (r: String)
    ensures
        r@ == spec_substitute(template@, groups@.map_values(|g: String| g@)),
{
    let ghost gv = groups@.map_values(|g: String| g@);
    if template.unicode_len() == 0 || groups.len() == 0 {
        let mut out = String::new();
        out.append(template);
        return out;
    }
    let mut res = String::new();
    res.append(template);
    let mut k: usize = groups.len();
    while k > 0
        invariant
            k <= groups@.len(),
            gv == groups@.map_values(|g: String| g@),
            spec_subst_down(template@, gv, groups@.len() as nat) == spec_subst_down(
                res@,
                gv,
                k as nat,
            ),
        decreases k,
    {
        let mut pat = String::new();
        text::push_char(&mut pat, '$');
        text::append_decimal(&mut pat, k as u64);
        proof {
            assert(pat@ =~= spec_dollar(k as nat));
        }
        let next = replace_all(res.as_str(), pat.as_str(), groups[k - 1].as_str());
        proof {
            assert(gv[k - 1] == groups@[k - 1]@);
        }
        res = next;
        k = k - 1;
    }
    res
}

// ---------------------------------------------------------------------------
// Candidate ordering.
// ---------------------------------------------------------------------------

/// `s` rotated left by `k % len`.
pub open spec fn spec_rotate(s: Seq<Seq<char>>, k: int) -> Seq<Seq<char>> {
    if s.len() == 0 {
        s
    } else {
        s.subrange(k % s.len() as int, s.len() as int) + s.subrange(0, k % s.len() as int)
    }
}

/// Rotates the candidate list left by `start % len`.
pub fn rotate(candidates: Vec<String>, start: usize) -> (r: Vec<String>)
    ensures
        r@.map_values(|g: String| g@) == spec_rotate(
            candidates@.map_values(|g: String| g@),
            start as int,
        ),
{
    let ghost cv = candidates@.map_values(|g: String| g@);
    let n = candidates.len();
    if n == 0 {
        proof {
            assert(cv.len() == 0);
        }
        return candidates;
    }
    let off = start % n;
    if off == 0 {
        proof {
            assert(spec_rotate(cv, start as int) =~= cv);
        }
        return candidates;
    }
    let mut rest = candidates;
    let mut tail = rest.split_off(off);
    tail.append(&mut rest);
    proof {
        assert(tail@.map_values(|g: String| g@) =~= spec_rotate(cv, start as int));
    }
    tail
}

/// Orders upstream candidates per the strategy: sequential keeps the
/// declared order; round-robin rotates by the per-route counter and bumps
/// it; random rotates by a uniform offset. Lists of at most one candidate
/// are returned as they are, and the counter is left alone.
pub fn order_candidates(strategy: Strategy, candidates: Vec<String>, rr: &mut u64) -> (r: Vec<
    String,
>)
    ensures
        ({
            let cv = candidates@.map_values(|g: String| g@);
            let rv = r@.map_values(|g: String| g@);
            &&& candidates@.len() <= 1 ==> rv == cv && *final(rr) == *old(rr)
            &&& strategy == Strategy::Sequential ==> rv == cv && *final(rr) == *old(rr)
            &&& (candidates@.len() > 1 && strategy == Strategy::RoundRobin) ==> rv == spec_rotate(
                cv,
                *old(rr) as int,
            ) && *final(rr) == vstd::wrapping::u64_specs::wrapping_add(*old(rr), 1)
            &&& (candidates@.len() > 1 && strategy == Strategy::Random) ==> (exists|off: int|
                0 <= off < cv.len() && rv == spec_rotate(cv, off)) && *final(rr) == *old(rr)
        }),
{
    if candidates.len() <= 1 {
        return candidates;
    }
    match strategy {
        Strategy::Sequential => candidates,
        Strategy::Random => {
            let n = candidates.len();
            let off = random_below(n);
            let r = rotate(candidates, off);
            proof {
                assert(0 <= off % n < n);
            }
            r
        },
        Strategy::RoundRobin => {
            let start = (*rr % candidates.len() as u64) as usize;
            let counter = *rr;
            *rr = counter.wrapping_add(1);
            let ghost cv = candidates@.map_values(|g: String| g@);
            let r = rotate(candidates, start);
            proof {
                assert(cv.len() == candidates@.len());
                assert(cv.len() > 1);
                let m = (counter as int) % (cv.len() as int);
                assert(m == start as int);
                assert(0 <= (start as int) < (cv.len() as int)) by (nonlinear_arith)
                    requires
                        (start as int) == (counter as int) % (cv.len() as int),
                        cv.len() > 1,
                ;
                assert((start as int) % (cv.len() as int) == start as int) by (nonlinear_arith)
                    requires 0 <= (start as int) < (cv.len() as int);
                assert(spec_rotate(cv, counter as int) == cv.subrange(m, cv.len() as int)
                    + cv.subrange(0, m));
                assert(spec_rotate(cv, start as int) == cv.subrange(m, cv.len() as int)
                    + cv.subrange(0, m));
            }
            r
        },
    }
}

/// Relies on `rand::random_range`: a uniform draw below `n`; nothing more
/// is assumed of it than the range.
#[verifier::external_body]
fn random_below(n: usize) -> (r: usize)
    requires
        n > 0,
    ensures
        r < n,
{
    rand::random_range(0..n)
}

// ---------------------------------------------------------------------------
// Compiled patterns and routes.
// ---------------------------------------------------------------------------

/// A pre-compiled host pattern: an exact (already lowercased) literal, or a
/// tokenized wildcard pattern.
pub struct CompiledPattern {
    pub pattern: String,
    pub exact: bool,
    pub toks: Vec<GlobTok>,
}

/// The plain-value shadow of a compiled pattern.
pub ghost struct PatView {
    pub pattern: Seq<char>,
    pub exact: bool,
    pub toks: Seq<GlobTok>,
}

impl View for CompiledPattern {
    type V = PatView;

    open spec fn view(&self) -> PatView {
        PatView { pattern: self.pattern@, exact: self.exact, toks: self.toks@ }
    }
}

/// Well-formedness: exact patterns hold neither a wildcard nor an escape
/// and no tokens; anything else holds its own tokenization, so an escaped
/// wildcard (`\\*`) matches the literal character.
pub open spec fn pat_wf(p: PatView) -> bool {
    if p.exact {
        !pattern::spec_has_wildcard(p.pattern) && !pattern::spec_has_escape(p.pattern)
            && p.toks.len() == 0
    } else {
        (pattern::spec_has_wildcard(p.pattern) || pattern::spec_has_escape(p.pattern)) && Some(
            p.toks,
        ) == pattern::spec_compile_glob(p.pattern)
    }
}

/// What matching a host against one pattern yields.
pub open spec fn spec_pattern_match(p: PatView, host: Seq<char>) -> Option<Seq<Seq<char>>> {
    if p.exact {
        if host == p.pattern {
            Some(Seq::empty())
        } else {
            None
        }
    } else {
        pattern::spec_glob(p.toks, host)
    }
}

/// The compiled form of one (trimmed, lowercased) host pattern; `None`
/// exactly when a wildcard pattern ends in a bare backslash.
pub open spec fn spec_pat_of(h: Seq<char>) -> Option<PatView> {
    if !pattern::spec_has_wildcard(h) && !pattern::spec_has_escape(h) {
        Some(PatView { pattern: h, exact: true, toks: Seq::empty() })
    } else {
        match pattern::spec_compile_glob(h) {
            Some(t) => Some(PatView { pattern: h, exact: false, toks: t }),
            None => None,
        }
    }
}

/// Compiles the host list of a route: names are trimmed and lowercased,
/// empty ones dropped; a malformed pattern fails the whole route.
pub open spec fn spec_compile_patterns(hosts: Seq<Seq<char>>) -> Option<Seq<PatView>>
    decreases hosts.len(),
{
    if hosts.len() == 0 {
        Some(Seq::empty())
    } else {
        let h = text::spec_trim_lower(hosts.first());
        if h.len() == 0 {
            spec_compile_patterns(hosts.drop_first())
        } else {
            match spec_pat_of(h) {
                None => None,
                Some(p) => match spec_compile_patterns(hosts.drop_first()) {
                    None => None,
                    Some(ps) => Some(seq![p] + ps),
                },
            }
        }
    }
}

/// Upstream templates trimmed, with empty ones dropped.
pub open spec fn spec_clean_list(ups: Seq<Seq<char>>) -> Seq<Seq<char>>
    decreases ups.len(),
{
    if ups.len() == 0 {
        Seq::empty()
    } else {
        let u = text::spec_trim(ups.first());
        if u.len() == 0 {
            spec_clean_list(ups.drop_first())
        } else {
            seq![u] + spec_clean_list(ups.drop_first())
        }
    }
}

fn compile_pattern(h: &String) -> (r: Option<CompiledPattern>)
    ensures
        match r {
            Some(p) => Some(p@) == spec_pat_of(h@),
            None => spec_pat_of(h@) is None,
        },
{
    if !pattern::has_wildcard(h.as_str()) && !pattern::has_escape(h.as_str()) {
        Some(CompiledPattern { pattern: h.clone(), exact: true, toks: Vec::new() })
    } else {
        match pattern::compile_glob(h.as_str()) {
            Some(toks) => Some(CompiledPattern { pattern: h.clone(), exact: false, toks }),
            None => None,
        }
    }
}

/// One route, compiled: patterns, upstream templates kept verbatim, the
/// strategy, the round-robin counter, the middleware chain, and the
/// optional status-cache TTL.
pub struct CompiledRoute {
    pub patterns: Vec<CompiledPattern>,
    pub upstreams: Vec<String>,
    pub strategy: Strategy,
    pub rr: u64,
    pub chain: ChainMiddleware,
    pub cache_ping_ttl_ms: Option<u64>,
}

/// The plain-value shadow of a compiled route (the chain is opaque).
pub ghost struct RouteView {
    pub patterns: Seq<PatView>,
    pub upstreams: Seq<Seq<char>>,
    pub strategy: Strategy,
    pub rr: u64,
    pub cache_ping_ttl_ms: Option<u64>,
}

impl View for CompiledRoute {
    type V = RouteView;

    open spec fn view(&self) -> RouteView {
        RouteView {
            patterns: self.patterns@.map_values(|p: CompiledPattern| p@),
            upstreams: self.upstreams@.map_values(|u: String| u@),
            strategy: self.strategy,
            rr: self.rr,
            cache_ping_ttl_ms: self.cache_ping_ttl_ms,
        }
    }
}

pub open spec fn route_wf(rt: RouteView) -> bool {
    &&& rt.patterns.len() > 0
    &&& rt.upstreams.len() > 0
    &&& forall|k: int| 0 <= k < rt.patterns.len() ==> pat_wf(#[trigger] rt.patterns[k])
}

/// Compiles a route. Errors exactly when a wildcard pattern is malformed,
/// no non-empty pattern remains, or no non-empty upstream remains.
pub fn compile_route(rt: &RouteConfig, chain: ChainMiddleware) -> (r: Result<CompiledRoute, String>)
    ensures
        match spec_compile_patterns(rt.host@.map_values(|h: String| h@)) {
            None => r is Err,
            Some(ps) => {
                let ups = spec_clean_list(rt.upstreams@.map_values(|u: String| u@));
                if ps.len() == 0 || ups.len() == 0 {
                    r is Err
                } else {
                    r matches Ok(c) && c@.patterns == ps && c@.upstreams == ups && c@.strategy
                        == spec_strategy_of(rt.strategy@) && c@.rr == 0 && c@.cache_ping_ttl_ms
                        == rt.cache_ping_ttl_ms && route_wf(c@)
                }
            },
        },
{
    let ghost hostsv = rt.host@.map_values(|h: String| h@);
    let mut patterns: Vec<CompiledPattern> = Vec::new();
    let nh = rt.host.len();
    let mut i: usize = 0;
    proof {
        assert(hostsv.skip(0) =~= hostsv);
        if spec_compile_patterns(hostsv) is Some {
            assert(patterns@.map_values(|p: CompiledPattern| p@) + spec_compile_patterns(
                hostsv,
            )->Some_0 =~= spec_compile_patterns(hostsv)->Some_0);
        }
    }
    while i < nh
        invariant
            i <= nh == rt.host@.len(),
            hostsv == rt.host@.map_values(|h: String| h@),
            spec_compile_patterns(hostsv) matches Some(all) ==> (spec_compile_patterns(
                hostsv.skip(i as int),
            ) matches Some(restps) && all == patterns@.map_values(|p: CompiledPattern| p@)
                + restps),
            spec_compile_patterns(hostsv) is None ==> spec_compile_patterns(
                hostsv.skip(i as int),
            ) is None,
            forall|k: int|
                0 <= k < patterns@.len() ==> pat_wf(#[trigger] patterns@[k]@),
        decreases nh - i,
    {
        let ghost tail = hostsv.skip(i as int);
        proof {
            assert(tail.first() == hostsv[i as int]);
            assert(tail.drop_first() =~= hostsv.skip(i as int + 1));
            assert(hostsv[i as int] == rt.host@[i as int]@);
        }
        let h = text::trim_lower_str(rt.host[i].as_str());
        if h.as_str().unicode_len() == 0 {
            i = i + 1;
            continue;
        }
        match compile_pattern(&h) {
            None => {
                return Err(String::from_str("router: invalid host pattern"));
            },
            Some(p) => {
                patterns.push(p);
                proof {
                    if spec_compile_patterns(hostsv) is Some {
                        assert(patterns@.map_values(|q: CompiledPattern| q@) =~= patterns@.map_values(
                            |q: CompiledPattern| q@,
                        ).drop_last().push(p@));
                        assert(spec_compile_patterns(tail)->Some_0 =~= seq![p@]
                            + spec_compile_patterns(tail.drop_first())->Some_0);
                        assert(patterns@.map_values(|q: CompiledPattern| q@)
                            + spec_compile_patterns(tail.drop_first())->Some_0 =~= patterns@.map_values(
                            |q: CompiledPattern| q@,
                        ).drop_last() + spec_compile_patterns(tail)->Some_0);
                    }
                }
            },
        }
        i = i + 1;
    }
    proof {
        assert(hostsv.skip(nh as int) =~= Seq::<Seq<char>>::empty());
        if spec_compile_patterns(hostsv) is Some {
            assert(patterns@.map_values(|p: CompiledPattern| p@) + Seq::<PatView>::empty()
                =~= patterns@.map_values(|p: CompiledPattern| p@));
        }
    }
    if patterns.len() == 0 {
        return Err(String::from_str("router: route missing host patterns"));
    }
    let ghost upsv = rt.upstreams@.map_values(|u: String| u@);
    let mut upstreams: Vec<String> = Vec::new();
    let nu = rt.upstreams.len();
    let mut j: usize = 0;
    proof {
        assert(upsv.skip(0) =~= upsv);
        assert(upstreams@.map_values(|u: String| u@) + spec_clean_list(upsv) =~= spec_clean_list(
            upsv,
        ));
    }
    while j < nu
        invariant
            j <= nu == rt.upstreams@.len(),
            upsv == rt.upstreams@.map_values(|u: String| u@),
            spec_clean_list(upsv) == upstreams@.map_values(|u: String| u@) + spec_clean_list(
                upsv.skip(j as int),
            ),
        decreases nu - j,
    {
        let ghost tail = upsv.skip(j as int);
        proof {
            assert(tail.first() == upsv[j as int]);
            assert(tail.drop_first() =~= upsv.skip(j as int + 1));
            assert(upsv[j as int] == rt.upstreams@[j as int]@);
        }
        let u = text::trim_str(rt.upstreams[j].as_str());
        if u.as_str().unicode_len() > 0 {
            upstreams.push(u);
            proof {
                assert(upstreams@.map_values(|x: String| x@).drop_last()
                    + (seq![text::spec_trim(tail.first())] + spec_clean_list(tail.drop_first()))
                    =~= upstreams@.map_values(|x: String| x@) + spec_clean_list(
                    tail.drop_first(),
                ));
            }
        }
        j = j + 1;
    }
    proof {
        assert(upsv.skip(nu as int) =~= Seq::<Seq<char>>::empty());
        assert(upstreams@.map_values(|u: String| u@) + Seq::<Seq<char>>::empty()
            =~= upstreams@.map_values(|u: String| u@));
    }
    if upstreams.len() == 0 {
        return Err(String::from_str("router: route missing upstreams"));
    }
    let strategy = parse_strategy(rt.strategy.as_str());
    Ok(
        CompiledRoute {
            patterns,
            upstreams,
            strategy,
            rr: 0,
            chain,
            cache_ping_ttl_ms: rt.cache_ping_ttl_ms,
        },
    )
}

/// Matches a (normalized) host against one pattern: whether it matched,
/// and the captured groups.
pub fn match_host(host: &str, p: &CompiledPattern) -> (r: (bool, Vec<String>))
    requires
        pat_wf(p@),
    ensures
        match spec_pattern_match(p@, host@) {
            Some(g) => r.0 && r.1@.map_values(|x: String| x@) == g,
            None => !r.0 && r.1@.len() == 0,
        },
{
    if p.exact {
        let eq = text::str_eq(host, p.pattern.as_str());
        let empty: Vec<String> = Vec::new();
        proof {
            assert(empty@.map_values(|x: String| x@) =~= Seq::<Seq<char>>::empty());
        }
        (eq, empty)
    } else {
        match pattern::glob_match(&p.toks, host) {
            Some(groups) => (true, groups),
            None => (false, Vec::new()),
        }
    }
}

/// The immutable value a resolution returns: the normalized host, the
/// ordered upstream candidates with captures substituted, the matching
/// pattern, the captures, the index of the route (whose chain runs the
/// rewrite phase later), an optional rewritten prelude, and the route's
/// status-cache TTL.
pub struct Resolution {
    pub host: String,
    pub upstreams: Vec<String>,
    pub matched_host: String,
    pub captures: Vec<String>,
    pub route_index: usize,
    pub prelude_override: Option<Vec<u8>>,
    pub cache_ping_ttl_ms: Option<u64>,
}

/// The first pattern of the list matching `host`, with its captures.
pub open spec fn spec_first_pattern(ps: Seq<PatView>, host: Seq<char>) -> Option<
    (int, Seq<Seq<char>>),
>
    decreases ps.len(),
{
    if ps.len() == 0 {
        None
    } else {
        match spec_pattern_match(ps.first(), host) {
            Some(g) => Some((0, g)),
            None => match spec_first_pattern(ps.drop_first(), host) {
                Some((i, g)) => Some((i + 1, g)),
                None => None,
            },
        }
    }
}

/// Substituted upstream candidates for a route and captures, before
/// strategy ordering.
pub open spec fn spec_candidates(rt: RouteView, groups: Seq<Seq<char>>) -> Seq<Seq<char>> {
    rt.upstreams.map_values(|t: Seq<char>| spec_substitute(t, groups))
}

/// Capture substitution and strategy ordering for a matched route: the
/// returned candidate list is a rotation of the substituted templates, the
/// identity rotation under `sequential` (and whenever there is at most one
/// candidate), the counter rotation under `round-robin`.
pub open spec fn resolution_ordered(
    rt_old: RouteView,
    rt_new: RouteView,
    groups: Seq<Seq<char>>,
    ups: Seq<Seq<char>>,
) -> bool {
    let cands = spec_candidates(rt_old, groups);
    &&& (exists|off: int| 0 <= off && ups == spec_rotate(cands, off)) || ups == cands
    &&& (rt_old.strategy == Strategy::Sequential || cands.len() <= 1) ==> ups == cands
        && rt_new.rr == rt_old.rr
    &&& (rt_old.strategy == Strategy::RoundRobin && cands.len() > 1) ==> ups == spec_rotate(
        cands,
        rt_old.rr as int,
    ) && rt_new.rr == vstd::wrapping::u64_specs::wrapping_add(rt_old.rr, 1)
    &&& rt_new.patterns == rt_old.patterns && rt_new.upstreams == rt_old.upstreams
        && rt_new.strategy == rt_old.strategy && rt_new.cache_ping_ttl_ms
        == rt_old.cache_ping_ttl_ms
    &&& rt_old.strategy == Strategy::Random ==> rt_new.rr == rt_old.rr
}

/// Resolves an already-normalized host against one route: the first
/// matching pattern decides, captures are substituted into every upstream
/// template (P-style: each candidate equals the template with `$j` replaced
/// by the j-th captured group), and the strategy orders the candidates.
pub fn resolve_route_for_host(rt: &mut CompiledRoute, host: &str, route_index: usize) -> (r:
    Option<Resolution>)
    requires
        route_wf(old(rt)@),
    ensures
        ({
            let h = text::spec_trim_lower(host@);
            h.len() == 0 ==> r is None && *final(rt) == *old(rt)
        }),
        ({
            let h = text::spec_trim_lower(host@);
            h.len() > 0 ==> match spec_first_pattern(old(rt)@.patterns, h) {
                None => r is None && *final(rt) == *old(rt),
                Some((pi, groups)) => r matches Some(res) && {
                    &&& res.host@ == h
                    &&& res.matched_host@ == old(rt)@.patterns[pi].pattern
                    &&& res.captures@.map_values(|x: String| x@) == groups
                    &&& res.route_index == route_index
                    &&& res.prelude_override is None
                    &&& res.cache_ping_ttl_ms == old(rt)@.cache_ping_ttl_ms
                    &&& resolution_ordered(
                        old(rt)@,
                        final(rt)@,
                        groups,
                        res.upstreams@.map_values(|x: String| x@),
                    )
                },
            }
        }),
        r is None ==> *final(rt) == *old(rt),
        final(rt).patterns == old(rt).patterns,
        final(rt).upstreams == old(rt).upstreams,
        final(rt).strategy == old(rt).strategy,
        final(rt).chain == old(rt).chain,
        final(rt).cache_ping_ttl_ms == old(rt).cache_ping_ttl_ms,
{
    let h = text::trim_lower_str(host);
    if h.as_str().unicode_len() == 0 {
        return None;
    }
    let np = rt.patterns.len();
    let mut pi: usize = 0;
    proof {
        assert(rt@.patterns.skip(0) =~= rt@.patterns);
    }
    while pi < np
        invariant
            pi <= np == rt.patterns@.len(),
            route_wf(rt@),
            *rt == *old(rt),
            h@ == text::spec_trim_lower(host@),
            h@.len() > 0,
            spec_first_pattern(rt@.patterns, h@) matches Some((w, g))
                ==> spec_first_pattern(rt@.patterns.skip(pi as int), h@) == Some((w - pi, g)),
            spec_first_pattern(rt@.patterns, h@) is None ==> spec_first_pattern(
                rt@.patterns.skip(pi as int),
                h@,
            ) is None,
        decreases np - pi,
    {
        let ghost ptail = rt@.patterns.skip(pi as int);
        proof {
            assert(ptail.first() == rt@.patterns[pi as int]);
            assert(ptail.drop_first() =~= rt@.patterns.skip(pi as int + 1));
            assert(rt@.patterns[pi as int] == rt.patterns@[pi as int]@);
        }
        let (matched, groups) = match_host(h.as_str(), &rt.patterns[pi]);
        if matched {
            let ghost gv = groups@.map_values(|x: String| x@);
            let mut cands: Vec<String> = Vec::new();
            let nu = rt.upstreams.len();
            let mut j: usize = 0;
            while j < nu
                invariant
                    j <= nu == rt.upstreams@.len(),
                    *rt == *old(rt),
                    gv == groups@.map_values(|x: String| x@),
                    cands@.len() == j,
                    forall|m: int|
                        0 <= m < j ==> #[trigger] cands@[m]@ == spec_substitute(
                            rt@.upstreams[m],
                            gv,
                        ),
                decreases nu - j,
            {
                proof {
                    assert(rt@.upstreams[j as int] == rt.upstreams@[j as int]@);
                }
                let c = substitute_params(rt.upstreams[j].as_str(), &groups);
                cands.push(c);
                j = j + 1;
            }
            proof {
                assert(cands@.map_values(|x: String| x@) =~= spec_candidates(rt@, gv));
            }
            let matched_host = {
                let mut m = String::new();
                m.append(rt.patterns[pi].pattern.as_str());
                proof {
                    assert(m@ =~= rt@.patterns[pi as int].pattern);
                }
                m
            };
            let strategy = rt.strategy;
            let ghost cands_v = cands@.map_values(|x: String| x@);
            let ordered = order_candidates(strategy, cands, &mut rt.rr);
            let ttl = rt.cache_ping_ttl_ms;
            proof {
                assert(spec_first_pattern(old(rt)@.patterns.skip(pi as int), h@) == Some(
                    (0int, gv),
                ));
                assert(spec_first_pattern(old(rt)@.patterns, h@) is Some);
                assert(spec_first_pattern(old(rt)@.patterns, h@) == Some((pi as int, gv)));
            }
            return Some(
                Resolution {
                    host: h,
                    upstreams: ordered,
                    matched_host,
                    captures: groups,
                    route_index,
                    prelude_override: None,
                    cache_ping_ttl_ms: ttl,
                },
            );
        }
        pi = pi + 1;
    }
    proof {
        assert(rt@.patterns.skip(np as int) =~= Seq::<PatView>::empty());
    }
    None
}

// ---------------------------------------------------------------------------
// The router: a compiled table, swapped whole on update.
// ---------------------------------------------------------------------------

/// The plain-value shadow of a route configuration.
pub ghost struct RcView {
    pub host: Seq<Seq<char>>,
    pub upstreams: Seq<Seq<char>>,
    pub middlewares: Seq<Seq<char>>,
    pub strategy: Seq<char>,
    pub cache_ping_ttl_ms: Option<u64>,
}

impl View for RouteConfig {
    type V = RcView;

    open spec fn view(&self) -> RcView {
        RcView {
            host: self.host@.map_values(|h: String| h@),
            upstreams: self.upstreams@.map_values(|u: String| u@),
            middlewares: self.middlewares@.map_values(|m: String| m@),
            strategy: self.strategy@,
            cache_ping_ttl_ms: self.cache_ping_ttl_ms,
        }
    }
}

/// What compiling one route yields; `None` when the route is dropped
/// (malformed pattern, or no pattern or upstream left).
pub open spec fn spec_compiled_route(rc: RcView) -> Option<RouteView> {
    match spec_compile_patterns(rc.host) {
        None => None,
        Some(ps) => {
            let ups = spec_clean_list(rc.upstreams);
            if ps.len() == 0 || ups.len() == 0 {
                None
            } else {
                Some(
                    RouteView {
                        patterns: ps,
                        upstreams: ups,
                        strategy: spec_strategy_of(rc.strategy),
                        rr: 0,
                        cache_ping_ttl_ms: rc.cache_ping_ttl_ms,
                    },
                )
            }
        },
    }
}

/// The compiled table: each route in declaration order, the ones that fail
/// to compile dropped.
pub open spec fn spec_compile_table(rcs: Seq<RcView>) -> Seq<RouteView>
    decreases rcs.len(),
{
    if rcs.len() == 0 {
        Seq::empty()
    } else {
        let rest = spec_compile_table(rcs.drop_first());
        match spec_compiled_route(rcs.first()) {
            None => rest,
            Some(rv) => seq![rv] + rest,
        }
    }
}

/// Routing table. Resolution walks the routes in order; `update` replaces
/// the whole table, so a resolution sees either the old table or the new
/// one, never a mix.
pub struct Router {
    pub routes: Vec<CompiledRoute>,
}

impl View for Router {
    type V = Seq<RouteView>;

    open spec fn view(&self) -> Seq<RouteView> {
        self.routes@.map_values(|r: CompiledRoute| r@)
    }
}

pub open spec fn router_wf(rts: Seq<RouteView>) -> bool {
    forall|k: int| 0 <= k < rts.len() ==> route_wf(#[trigger] rts[k])
}

/// The first route whose pattern list matches `host`: route index, pattern
/// index within it, and the captures.
pub open spec fn spec_first_route(rts: Seq<RouteView>, host: Seq<char>) -> Option<
    (int, int, Seq<Seq<char>>),
>
    decreases rts.len(),
{
    if rts.len() == 0 {
        None
    } else {
        match spec_first_pattern(rts.first().patterns, host) {
            Some((pi, g)) => Some((0, pi, g)),
            None => match spec_first_route(rts.drop_first(), host) {
                Some((ri, pi, g)) => Some((ri + 1, pi, g)),
                None => None,
            },
        }
    }
}

/// What trying one route against a prelude came to.
pub ghost enum RouteTry {
    /// Its chain emitted a host that matched one of its own patterns.
    Matched,
    /// Its chain needs more bytes to decide.
    NeedMore,
    /// Anything else: no host, a host missing the patterns, or a chain
    /// failure (degraded so sibling routes can still win).
    NoMatch,
}

/// The outcome of a prelude resolution, reduced to what the scan decides.
pub ghost enum PreludeOutcome {
    /// The route at this index won.
    Found(int),
    /// Every route was tried; none matched, none needed more bytes.
    NoRoute,
    /// Every route was tried; none matched, at least one needs more bytes.
    NeedMore,
}

pub open spec fn prelude_outcome_of(
    r: Result<Option<Resolution>, MiddlewareError>,
) -> PreludeOutcome {
    match r {
        Ok(Some(res)) => PreludeOutcome::Found(res.route_index as int),
        Ok(None) => PreludeOutcome::NoRoute,
        Err(_) => PreludeOutcome::NeedMore,
    }
}

/// How a sequence of per-route tries forces the scan's outcome: the first
/// matching route stops the scan and wins; otherwise every route is
/// tried, and the answer is need-more-data exactly when some chain
/// signalled it.
pub open spec fn spec_prelude_tries(
    tries: Seq<RouteTry>,
    nroutes: int,
    outcome: PreludeOutcome,
) -> bool {
    match outcome {
        PreludeOutcome::Found(ri) => {
            &&& 1 <= tries.len() <= nroutes
            &&& ri == tries.len() - 1
            &&& tries.last() is Matched
            &&& forall|j: int| 0 <= j < tries.len() - 1 ==> !((#[trigger] tries[j]) is Matched)
        },
        PreludeOutcome::NoRoute => {
            &&& tries.len() == nroutes
            &&& forall|j: int|
                0 <= j < tries.len() ==> !((#[trigger] tries[j]) is Matched) && !(tries[j]
                    is NeedMore)
        },
        PreludeOutcome::NeedMore => {
            &&& tries.len() == nroutes
            &&& forall|j: int| 0 <= j < tries.len() ==> !((#[trigger] tries[j]) is Matched)
            &&& exists|j: int| 0 <= j < tries.len() && (#[trigger] tries[j]) is NeedMore
        },
    }
}

impl Router {
    /// Builds a router from configured routes and their compiled chains.
    pub fn new(routes: Vec<(RouteConfig, ChainMiddleware)>) -> (r: Router)
        ensures
            r@ == spec_compile_table(routes@.map_values(|p: (RouteConfig, ChainMiddleware)| p.0@)),
            router_wf(r@),
    {
        let mut r = Router { routes: Vec::new() };
        r.update(routes);
        r
    }

    /// Replaces the whole routing table with the compiled form of `routes`;
    /// routes that fail to compile are dropped.
    pub fn update(&mut self, routes: Vec<(RouteConfig, ChainMiddleware)>)
        ensures
            final(self)@ == spec_compile_table(
                routes@.map_values(|p: (RouteConfig, ChainMiddleware)| p.0@),
            ),
            router_wf(final(self)@),
    {
        let ghost all = routes@.map_values(|p: (RouteConfig, ChainMiddleware)| p.0@);
        let mut out: Vec<CompiledRoute> = Vec::new();
        let mut rest = routes;
        proof {
            assert(out@.map_values(|r: CompiledRoute| r@) + spec_compile_table(
                rest@.map_values(|p: (RouteConfig, ChainMiddleware)| p.0@),
            ) =~= spec_compile_table(all));
        }
        while rest.len() != 0
            invariant
                out@.map_values(|r: CompiledRoute| r@) + spec_compile_table(
                    rest@.map_values(|p: (RouteConfig, ChainMiddleware)| p.0@),
                ) == spec_compile_table(all),
                forall|k: int| 0 <= k < out@.len() ==> route_wf(#[trigger] out@[k]@),
            decreases rest@.len(),
        {
            let ghost pre = rest@.map_values(|p: (RouteConfig, ChainMiddleware)| p.0@);
            let (rc, chain) = rest.remove(0);
            proof {
                assert(pre.drop_first() =~= rest@.map_values(
                    |p: (RouteConfig, ChainMiddleware)| p.0@,
                ));
                assert(pre.first() == rc@);
            }
            let ghost out_pre = out@.map_values(|r: CompiledRoute| r@);
            match compile_route(&rc, chain) {
                Ok(c) => {
                    out.push(c);
                    proof {
                        assert(out@.map_values(|r: CompiledRoute| r@) =~= out_pre + seq![c@]);
                        assert(spec_compiled_route(rc@) == Some(c@));
                        assert(out_pre + seq![c@] + spec_compile_table(pre.drop_first())
                            =~= out_pre + (seq![c@] + spec_compile_table(pre.drop_first())));
                    }
                },
                Err(_) => {
                    proof {
                        assert(spec_compiled_route(rc@) is None);
                    }
                },
            }
        }
        proof {
            assert(out@.map_values(|r: CompiledRoute| r@) + spec_compile_table(
                rest@.map_values(|p: (RouteConfig, ChainMiddleware)| p.0@),
            ) =~= out@.map_values(|r: CompiledRoute| r@));
        }
        self.routes = out;
    }

    /// The middleware chain of route `i`, for the rewrite phase.
    pub fn chain_at(&self, i: usize) -> (r: &ChainMiddleware)
        requires
            i < self@.len(),
    {
        &self.routes[i].chain
    }

    /// Resolves a routing host against the table: the first route with a
    /// matching pattern decides; its captures are substituted into its
    /// upstream templates and its strategy orders the candidates. Only the
    /// matched route's round-robin counter may change.
    pub fn resolve(&mut self, host: &str) -> (r: Option<Resolution>)
        requires
            router_wf(old(self)@),
        ensures
            ({
                let h = text::spec_trim_lower(host@);
                h.len() == 0 ==> r is None && final(self)@ == old(self)@
            }),
            ({
                let h = text::spec_trim_lower(host@);
                h.len() > 0 ==> match spec_first_route(old(self)@, h) {
                    None => r is None && final(self)@ == old(self)@,
                    Some((ri, pi, groups)) => r matches Some(res) && {
                        &&& res.host@ == h
                        &&& res.route_index == ri
                        &&& res.matched_host@ == old(self)@[ri].patterns[pi].pattern
                        &&& res.captures@.map_values(|x: String| x@) == groups
                        &&& res.prelude_override is None
                        &&& res.cache_ping_ttl_ms == old(self)@[ri].cache_ping_ttl_ms
                        &&& resolution_ordered(
                            old(self)@[ri],
                            final(self)@[ri],
                            groups,
                            res.upstreams@.map_values(|x: String| x@),
                        )
                        &&& final(self)@.len() == old(self)@.len()
                        &&& forall|j: int|
                            0 <= j < old(self)@.len() && j != ri ==> final(self)@[j] == old(
                                self,
                            )@[j]
                    },
                }
            }),
            r is None ==> final(self)@ == old(self)@,
            router_wf(final(self)@),
    {
        let h = text::trim_lower_str(host);
        if h.as_str().unicode_len() == 0 {
            return None;
        }
        let n = self.routes.len();
        let mut ri: usize = 0;
        proof {
            assert(self@.skip(0) =~= self@);
        }
        while ri < n
            invariant
                ri <= n == self@.len(),
                self@ == old(self)@,
                router_wf(self@),
                h@ == text::spec_trim_lower(host@),
                h@.len() > 0,
                spec_first_route(self@, h@) matches Some((wri, pi, g))
                    ==> spec_first_route(self@.skip(ri as int), h@) == Some((wri - ri, pi, g)),
                spec_first_route(self@, h@) is None ==> spec_first_route(
                    self@.skip(ri as int),
                    h@,
                ) is None,
            decreases n - ri,
        {
            let ghost tail = self@.skip(ri as int);
            proof {
                text::lemma_trim_lower_idempotent(host@);
                assert(text::spec_trim_lower(h@) == h@);
                assert(tail.first() == self@[ri as int]);
                assert(tail.drop_first() =~= self@.skip(ri as int + 1));
                assert(self@[ri as int] == self.routes@[ri as int]@);
                assert(route_wf(self@[ri as int]));
            }
            let ghost routes_pre = self.routes@;
            let route = vstd::std_specs::vec::vec_index_mut(&mut self.routes, ri);
            let resolved = resolve_route_for_host(route, h.as_str(), ri);
            match resolved {
                Some(res) => {
                    proof {
                        assert(routes_pre[ri as int]@ == old(self)@[ri as int]);
                        assert(spec_first_pattern(old(self)@[ri as int].patterns, h@) is Some);
                        assert(spec_first_route(old(self)@.skip(ri as int), h@) matches Some(
                            (w, pi, g),
                        ) && w == 0) by {
                            assert(old(self)@.skip(ri as int).first() == old(self)@[ri as int]);
                        }
                        assert(spec_first_route(old(self)@, h@) is Some);
                        assert(final(self)@.len() == old(self)@.len());
                        assert(forall|j: int|
                            0 <= j < old(self)@.len() && j != ri ==> final(self)@[j] == old(
                                self,
                            )@[j]);
                        assert(final(self)@[ri as int] == self.routes@[ri as int]@);
                        assert(forall|j: int|
                            0 <= j < final(self)@.len() ==> route_wf(#[trigger] final(self)@[j]));
                    }
                    return Some(res);
                },
                None => {
                    proof {
                        assert(self.routes@ =~= routes_pre);
                        assert(self@ =~= old(self)@);
                    }
                },
            }
            ri = ri + 1;
        }
        proof {
            assert(self@.skip(n as int) =~= Seq::<RouteView>::empty());
        }
        None
    }

    /// The canonical entry point: resolves a captured prelude by trying
    /// each route's middleware chain in declaration order. A route whose
    /// chain emits a host wins if that host matches one of its own
    /// patterns; a chain that needs more bytes is remembered, so the
    /// overall answer is need-more-data exactly when no route matched and
    /// some chain could still decide with more input. Chain failures never
    /// surface: they degrade to a non-match for that route.
    pub fn resolve_prelude(&mut self, prelude: &Vec<u8>) -> (r: Result<
        Option<Resolution>,
        MiddlewareError,
    >)
        requires
            router_wf(old(self)@),
        ensures
            !(r matches Err(MiddlewareError::NoMatch)),
            !(r matches Err(MiddlewareError::Fatal(_))),
            r matches Ok(None) ==> final(self)@ == old(self)@,
            r is Err ==> final(self)@ == old(self)@,
            router_wf(final(self)@),
            exists|tries: Seq<RouteTry>|
                #[trigger] spec_prelude_tries(tries, old(self)@.len() as int, prelude_outcome_of(
                    r,
                )),
            r matches Ok(Some(res)) ==> {
                &&& res.host@.len() > 0
                &&& res.host@ == text::spec_trim_lower(res.host@)
                &&& 0 <= res.route_index < old(self)@.len()
                &&& final(self)@.len() == old(self)@.len()
                &&& (forall|j: int|
                    0 <= j < old(self)@.len() && j != res.route_index ==> final(self)@[j] == old(
                        self,
                    )@[j])
                &&& res.cache_ping_ttl_ms == old(self)@[res.route_index as int].cache_ping_ttl_ms
                &&& (spec_first_pattern(
                    old(self)@[res.route_index as int].patterns,
                    res.host@,
                ) matches Some((pi, groups)) && res.captures@.map_values(|x: String| x@)
                    == groups && resolution_ordered(
                    old(self)@[res.route_index as int],
                    final(self)@[res.route_index as int],
                    groups,
                    res.upstreams@.map_values(|x: String| x@),
                ))
            },
    {
        let n = self.routes.len();
        let mut need_more = false;
        let mut ri: usize = 0;
        let ghost mut tries: Seq<RouteTry> = Seq::empty();
        while ri < n
            invariant
                ri <= n == self@.len(),
                self@ == old(self)@,
                router_wf(self@),
                tries.len() == ri,
                forall|j: int| 0 <= j < tries.len() ==> !((#[trigger] tries[j]) is Matched),
                need_more ==> exists|j: int|
                    0 <= j < tries.len() && (#[trigger] tries[j]) is NeedMore,
                !need_more ==> forall|j: int|
                    0 <= j < tries.len() ==> !((#[trigger] tries[j]) is NeedMore),
            decreases n - ri,
        {
            let parsed = self.routes[ri].chain.parse(prelude);
            match parsed {
                Ok((host, over)) => {
                    let ghost routes_pre = self.routes@;
                    proof {
                        assert(routes_pre[ri as int]@ == old(self)@[ri as int]);
                        assert(route_wf(routes_pre[ri as int]@)) by {
                            assert(self@[ri as int] == routes_pre[ri as int]@);
                        }
                        assert(text::spec_trim_lower(host@) == host@);
                    }
                    let route = vstd::std_specs::vec::vec_index_mut(&mut self.routes, ri);
                    match resolve_route_for_host(route, host.as_str(), ri) {
                        Some(res) => {
                            let mut res = res;
                            res.prelude_override = over;
                            proof {
                                let fp = spec_first_pattern(
                                    old(self)@[ri as int].patterns,
                                    host@,
                                );
                                assert(fp is Some);
                                let pi = fp->Some_0.0;
                                let groups = fp->Some_0.1;
                                assert(res.route_index == ri);
                                assert(res.host@ == host@);
                                assert(spec_first_pattern(
                                    old(self)@[res.route_index as int].patterns,
                                    res.host@,
                                ) == Some((pi, groups)));
                                assert(res.captures@.map_values(|x: String| x@) == groups);
                                assert(final(self)@.len() == old(self)@.len());
                                assert(final(self)@[ri as int] == self.routes@[ri as int]@);
                                assert(resolution_ordered(
                                    old(self)@[res.route_index as int],
                                    final(self)@[res.route_index as int],
                                    groups,
                                    res.upstreams@.map_values(|x: String| x@),
                                ));
                                assert(forall|j: int|
                                    0 <= j < old(self)@.len() && j != ri ==> final(self)@[j]
                                        == old(self)@[j]);
                                assert(final(self)@[ri as int] == self.routes@[ri as int]@);
                                assert(forall|j: int|
                                    0 <= j < final(self)@.len() ==> route_wf(
                                        #[trigger] final(self)@[j],
                                    ));
                            }
                            proof {
                                let w = tries.push(RouteTry::Matched);
                                assert(w.last() is Matched);
                                assert(spec_prelude_tries(
                                    w,
                                    old(self)@.len() as int,
                                    PreludeOutcome::Found(ri as int),
                                ));
                            }
                            return Ok(Some(res));
                        },
                        None => {
                            proof {
                                assert(self.routes@ =~= routes_pre);
                                assert(self@ =~= old(self)@);
                                let pre = tries;
                                tries = tries.push(RouteTry::NoMatch);
                                if need_more {
                                    let j0 = choose|j: int|
                                        0 <= j < pre.len() && (#[trigger] pre[j]) is NeedMore;
                                    assert(tries[j0] is NeedMore);
                                }
                            }
                        },
                    }
                },
                Err(MiddlewareError::NeedMoreData) => {
                    need_more = true;
                    proof {
                        tries = tries.push(RouteTry::NeedMore);
                        assert(tries[tries.len() - 1] is NeedMore);
                    }
                },
                Err(_) => {
                    proof {
                        let pre = tries;
                        tries = tries.push(RouteTry::NoMatch);
                        if need_more {
                            let j0 = choose|j: int|
                                0 <= j < pre.len() && (#[trigger] pre[j]) is NeedMore;
                            assert(tries[j0] is NeedMore);
                        }
                    }
                },
            }
            ri = ri + 1;
        }
        if need_more {
            proof {
                assert(spec_prelude_tries(
                    tries,
                    old(self)@.len() as int,
                    PreludeOutcome::NeedMore,
                ));
            }
            Err(MiddlewareError::NeedMoreData)
        } else {
            proof {
                assert(spec_prelude_tries(
                    tries,
                    old(self)@.len() as int,
                    PreludeOutcome::NoRoute,
                ));
            }
            Ok(None)
        }
    }
}

} // verus!
