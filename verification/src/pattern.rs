//! Wildcard host patterns: `*` captures any (shortest) run of characters,
//! `?` captures exactly one, a backslash makes the next character literal.
//! Matching is anchored at both ends and yields the captured groups in
//! pattern order, preferring the shortest capture for each `*` (the
//! leftmost-first semantics of a non-greedy match).

use vstd::prelude::*;

use crate::text;

verus! {

#[derive(Debug, Clone, Copy, PartialEq, Eq, Structural)]
pub enum GlobTok {
    Lit(char),
    /// `?`: exactly one character, captured.
    AnyOne,
    /// `*`: any run of characters, captured, shortest first.
    AnySeq,
}

/// Tokenizes a pattern; `None` exactly on a trailing backslash.
pub open spec fn spec_compile_glob(s: Seq<char>) -> Option<Seq<GlobTok>>
    decreases s.len(),
{
    if s.len() == 0 {
        Some(Seq::empty())
    } else if s.first() == '\\' {
        if s.len() == 1 {
            None
        } else {
            match spec_compile_glob(s.skip(2)) {
                None => None,
                Some(rest) => Some(seq![GlobTok::Lit(s[1])] + rest),
            }
        }
    } else {
        let tok = if s.first() == '*' {
            GlobTok::AnySeq
        } else if s.first() == '?' {
            GlobTok::AnyOne
        } else {
            GlobTok::Lit(s.first())
        };
        match spec_compile_glob(s.drop_first()) {
            None => None,
            Some(rest) => Some(seq![tok] + rest),
        }
    }
}

/// The number of capture groups of a token sequence.
pub open spec fn spec_group_count(pat: Seq<GlobTok>) -> nat
    decreases pat.len(),
{
    if pat.len() == 0 {
        0
    } else {
        (match pat.first() {
            GlobTok::Lit(_) => 0nat,
            GlobTok::AnyOne => 1nat,
            GlobTok::AnySeq => 1nat,
        }) + spec_group_count(pat.drop_first())
    }
}

/// Anchored match of `s` against `pat`; `Some(groups)` carries the captures
/// in pattern order, each `*` taking the shortest run that allows the rest
/// of the pattern to match.
pub open spec fn spec_glob(pat: Seq<GlobTok>, s: Seq<char>) -> Option<Seq<Seq<char>>>
    decreases pat.len(), s.len(),
{
    if pat.len() == 0 {
        if s.len() == 0 {
            Some(Seq::empty())
        } else {
            None
        }
    } else {
        match pat.first() {
            GlobTok::Lit(c) => {
                if s.len() > 0 && s.first() == c {
                    spec_glob(pat.drop_first(), s.drop_first())
                } else {
                    None
                }
            },
            GlobTok::AnyOne => {
                if s.len() > 0 {
                    match spec_glob(pat.drop_first(), s.drop_first()) {
                        None => None,
                        Some(g) => Some(seq![seq![s.first()]] + g),
                    }
                } else {
                    None
                }
            },
            GlobTok::AnySeq => {
                match spec_glob(pat.drop_first(), s) {
                    Some(g) => Some(seq![Seq::<char>::empty()] + g),
                    None => {
                        if s.len() > 0 {
                            match spec_glob(pat, s.drop_first()) {
                                None => None,
                                Some(g) => Some(g.update(0, seq![s.first()] + g[0])),
                            }
                        } else {
                            None
                        }
                    },
                }
            },
        }
    }
}

/// A successful match yields one group per wildcard token.
pub proof fn lemma_glob_group_count(pat: Seq<GlobTok>, s: Seq<char>)
    requires
        spec_glob(pat, s) is Some,
    ensures
        spec_glob(pat, s)->Some_0.len() == spec_group_count(pat),
    decreases pat.len(), s.len(),
{
    if pat.len() == 0 {
    } else {
        match pat.first() {
            GlobTok::Lit(c) => {
                lemma_glob_group_count(pat.drop_first(), s.drop_first());
            },
            GlobTok::AnyOne => {
                lemma_glob_group_count(pat.drop_first(), s.drop_first());
            },
            GlobTok::AnySeq => {
                if spec_glob(pat.drop_first(), s) is Some {
                    lemma_glob_group_count(pat.drop_first(), s);
                } else {
                    lemma_glob_group_count(pat, s.drop_first());
                }
            },
        }
    }
}

/// Whether the pattern holds a wildcard character outside an escape.
pub open spec fn spec_has_wildcard(s: Seq<char>) -> bool
    decreases s.len(),
{
    if s.len() == 0 {
        false
    } else if s.first() == '\\' {
        if s.len() == 1 {
            false
        } else {
            spec_has_wildcard(s.skip(2))
        }
    } else if s.first() == '*' || s.first() == '?' {
        true
    } else {
        spec_has_wildcard(s.drop_first())
    }
}

/// Whether the pattern holds a backslash escape at all.
pub open spec fn spec_has_escape(s: Seq<char>) -> bool {
    exists|k: int| 0 <= k < s.len() && s[k] == '\\'
}

/// Checks for a backslash in the pattern string.
pub fn has_escape(pattern: &str) -> (r: bool)
    ensures
        r == spec_has_escape(pattern@),
{
    let n = pattern.unicode_len();
    let mut i: usize = 0;
    while i < n
        invariant
            i <= n == pattern@.len(),
            forall|k: int| 0 <= k < i ==> pattern@[k] != '\\',
        decreases n - i,
    {
        if pattern.get_char(i) == '\\' {
            return true;
        }
        i = i + 1;
    }
    false
}

/// Converts a string to its character vector.
pub fn str_to_chars(s: &str) -> (r: Vec<char>)
    ensures
        r@ == s@,
{
    let n = s.unicode_len();
    let mut r: Vec<char> = Vec::new();
    let mut i: usize = 0;
    while i < n
        invariant
            0 <= i <= n == s@.len(),
            r@ == s@.subrange(0, i as int),
        decreases n - i,
    {
        r.push(s.get_char(i));
        proof {
            assert(r@ =~= s@.subrange(0, i as int + 1));
        }
        i = i + 1;
    }
    proof {
        assert(s@.subrange(0, n as int) =~= s@);
    }
    r
}

fn compile_glob_rec(s: &Vec<char>, i: usize) -> (r: Option<Vec<GlobTok>>)
    requires
        i <= s@.len(),
    ensures
        match r {
            Some(toks) => Some(toks@) == spec_compile_glob(s@.skip(i as int)),
            None => spec_compile_glob(s@.skip(i as int)) is None,
        },
    decreases s@.len() - i,
{
    let ghost tail = s@.skip(i as int);
    if i == s.len() {
        proof {
            assert(tail =~= Seq::<char>::empty());
        }
        return Some(Vec::new());
    }
    proof {
        assert(tail.first() == s@[i as int]);
        assert(tail.drop_first() =~= s@.skip(i as int + 1));
    }
    let c = s[i];
    if c == '\\' {
        if i + 1 == s.len() {
            return None;
        }
        proof {
            assert(tail.skip(2) =~= s@.skip(i as int + 2));
            assert(tail[1] == s@[i as int + 1]);
        }
        match compile_glob_rec(s, i + 2) {
            None => None,
            Some(rest) => {
                let out = text::cons_front(GlobTok::Lit(s[i + 1]), rest);
                Some(out)
            },
        }
    } else {
        let tok = if c == '*' {
            GlobTok::AnySeq
        } else if c == '?' {
            GlobTok::AnyOne
        } else {
            GlobTok::Lit(c)
        };
        match compile_glob_rec(s, i + 1) {
            None => None,
            Some(rest) => {
                let out = text::cons_front(tok, rest);
                Some(out)
            },
        }
    }
}

/// Tokenizes a pattern string; `None` exactly on a trailing backslash.
pub fn compile_glob(pattern: &str) -> (r: Option<Vec<GlobTok>>)
    ensures
        match r {
            Some(toks) => Some(toks@) == spec_compile_glob(pattern@),
            None => spec_compile_glob(pattern@) is None,
        },
{
    let chars = str_to_chars(pattern);
    proof {
        assert(chars@.skip(0) =~= pattern@);
    }
    compile_glob_rec(&chars, 0)
}

/// Whether the pattern string holds an unescaped `*` or `?`.
pub fn has_wildcard(pattern: &str) -> (r: bool)
    ensures
        r == spec_has_wildcard(pattern@),
{
    let chars = str_to_chars(pattern);
    let mut i: usize = 0;
    let n = chars.len();
    proof {
        assert(chars@.skip(0) =~= chars@);
    }
    loop
        invariant
            i <= n == chars@.len(),
            chars@ == pattern@,
            spec_has_wildcard(pattern@) == spec_has_wildcard(chars@.skip(i as int)),
        decreases n - i,
    {
        let ghost tail = chars@.skip(i as int);
        if i == n {
            proof {
                assert(tail =~= Seq::<char>::empty());
            }
            return false;
        }
        proof {
            assert(tail.first() == chars@[i as int]);
            assert(tail.drop_first() =~= chars@.skip(i as int + 1));
        }
        let c = chars[i];
        if c == '\\' {
            if i + 1 == n {
                proof {
                    assert(tail.len() == 1);
                }
                return false;
            }
            proof {
                assert(tail.skip(2) =~= chars@.skip(i as int + 2));
            }
            i = i + 2;
        } else if c == '*' || c == '?' {
            return true;
        } else {
            i = i + 1;
        }
    }
}

fn glob_rec(pat: &Vec<GlobTok>, s: &Vec<char>, pi: usize, si: usize) -> (r: Option<Vec<String>>)
    requires
        pi <= pat@.len(),
        si <= s@.len(),
    ensures
        match r {
            Some(groups) => Some(groups@.map_values(|g: String| g@)) == spec_glob(
                pat@.skip(pi as int),
                s@.skip(si as int),
            ),
            None => spec_glob(pat@.skip(pi as int), s@.skip(si as int)) is None,
        },
    decreases pat@.len() - pi, s@.len() - si,
{
    let ghost p = pat@.skip(pi as int);
    let ghost t = s@.skip(si as int);
    if pi == pat.len() {
        proof {
            assert(p =~= Seq::<GlobTok>::empty());
        }
        if si == s.len() {
            proof {
                assert(t =~= Seq::<char>::empty());
            }
            let empty: Vec<String> = Vec::new();
            proof {
                assert(empty@.map_values(|g: String| g@) =~= Seq::<Seq<char>>::empty());
            }
            return Some(empty);
        }
        proof {
            assert(t.len() > 0);
        }
        return None;
    }
    proof {
        assert(p.first() == pat@[pi as int]);
        assert(p.drop_first() =~= pat@.skip(pi as int + 1));
        if si < s.len() {
            assert(t.first() == s@[si as int]);
            assert(t.drop_first() =~= s@.skip(si as int + 1));
        }
    }
    match pat[pi] {
        GlobTok::Lit(c) => {
            if si < s.len() && s[si] == c {
                glob_rec(pat, s, pi + 1, si + 1)
            } else {
                proof {
                    if si >= s.len() {
                        assert(t.len() == 0);
                    }
                }
                None
            }
        },
        GlobTok::AnyOne => {
            if si < s.len() {
                match glob_rec(pat, s, pi + 1, si + 1) {
                    None => None,
                    Some(g) => {
                        let mut one = String::new();
                        text::push_char(&mut one, s[si]);
                        let out = text::cons_front(one, g);
                        proof {
                            assert(out@.map_values(|x: String| x@) =~= seq![seq![t.first()]]
                                + spec_glob(p.drop_first(), t.drop_first())->Some_0);
                        }
                        Some(out)
                    },
                }
            } else {
                proof {
                    assert(t.len() == 0);
                }
                None
            }
        },
        GlobTok::AnySeq => {
            match glob_rec(pat, s, pi + 1, si) {
                Some(g) => {
                    let out = text::cons_front(String::new(), g);
                    proof {
                        assert(out@.map_values(|x: String| x@) =~= seq![Seq::<char>::empty()]
                            + spec_glob(p.drop_first(), t)->Some_0);
                    }
                    Some(out)
                },
                None => {
                    if si < s.len() {
                        match glob_rec(pat, s, pi, si + 1) {
                            None => None,
                            Some(mut g) => {
                                proof {
                                    lemma_glob_group_count(p, t.drop_first());
                                    assert(spec_group_count(p) >= 1);
                                }
                                let first = g.remove(0);
                                let mut ext = String::new();
                                text::push_char(&mut ext, s[si]);
                                ext.append(first.as_str());
                                let out = text::cons_front(ext, g);
                                proof {
                                    assert(out@.map_values(|x: String| x@) =~= spec_glob(
                                        p,
                                        t.drop_first(),
                                    )->Some_0.update(
                                        0,
                                        seq![t.first()] + spec_glob(p, t.drop_first())->Some_0[0],
                                    ));
                                }
                                Some(out)
                            },
                        }
                    } else {
                        proof {
                            assert(t.len() == 0);
                        }
                        None
                    }
                },
            }
        },
    }
}

/// Anchored wildcard match with captures; `Some` exactly when the pattern
/// matches the whole string, and then the groups are the captures, shortest
/// first for every `*`.
pub fn glob_match(pat: &Vec<GlobTok>, host: &str) -> (r: Option<Vec<String>>)
    ensures
        match r {
            Some(groups) => Some(groups@.map_values(|g: String| g@)) == spec_glob(pat@, host@),
            None => spec_glob(pat@, host@) is None,
        },
{
    let chars = str_to_chars(host);
    proof {
        assert(pat@.skip(0) =~= pat@);
        assert(chars@.skip(0) =~= host@);
    }
    glob_rec(pat, &chars, 0, 0)
}

} // verus!
