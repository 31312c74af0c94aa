//! Runtime path resolution, over plain path strings: the working
//! directory and the middleware directory. Filesystem discovery and the
//! process environment stay with the application, which passes the values
//! they produce in here.

use vstd::prelude::*;

use crate::text;

verus! {

/// The resolved runtime directories.
#[derive(Debug, Clone, PartialEq, Eq)]
pub struct RuntimePaths {
    pub workdir: String,
    pub middleware_dir: String,
}

/// Whether a path string is absolute (starts with `/`).
pub open spec fn spec_is_absolute(s: Seq<char>) -> bool {
    s.len() > 0 && s[0] == '/'
}

/// `a` joined with `b` by a single separator.
pub open spec fn spec_join(a: Seq<char>, b: Seq<char>) -> Seq<char> {
    a + seq!['/'] + b
}

/// Removes redundant `.` segments inside a path: every `/./` collapses
/// to `/` and a trailing `/.` becomes `/`. `..` segments are deliberately
/// kept, and a dot inside a segment name is untouched.
pub open spec fn spec_clean_inner(s: Seq<char>) -> Seq<char>
    decreases s.len(),
{
    if s.len() >= 3 && s[0] == '/' && s[1] == '.' && s[2] == '/' {
        spec_clean_inner(s.skip(2))
    } else if s.len() == 2 && s[0] == '/' && s[1] == '.' {
        seq!['/']
    } else if s.len() == 0 {
        s
    } else {
        seq![s[0]] + spec_clean_inner(s.drop_first())
    }
}

/// `spec_clean_inner`, after leading `./` pairs have been dropped.
pub open spec fn spec_clean_dots(s: Seq<char>) -> Seq<char>
    decreases s.len(),
{
    if s.len() >= 2 && s[0] == '.' && s[1] == '/' {
        spec_clean_dots(s.skip(2))
    } else {
        spec_clean_inner(s)
    }
}

/// Cleans `.` segments out of a path string.
pub fn clean_dots(path: &str) -> (r: String)
    ensures
        r@ == spec_clean_dots(path@),
{
    let chars = crate::pattern::str_to_chars(path);
    let n = chars.len();
    let mut i: usize = 0;
    proof {
        assert(chars@.skip(0) =~= chars@);
    }
    while n - i >= 2 && chars[i] == '.' && chars[i + 1] == '/'
        invariant
            i <= n == chars@.len(),
            chars@ == path@,
            spec_clean_dots(path@) == spec_clean_dots(chars@.skip(i as int)),
        decreases n - i,
    {
        let ghost tail = chars@.skip(i as int);
        proof {
            assert(tail[0] == chars@[i as int]);
            assert(tail[1] == chars@[i as int + 1]);
            assert(tail.skip(2) =~= chars@.skip(i as int + 2));
        }
        i = i + 2;
    }
    proof {
        let ghost tail = chars@.skip(i as int);
        if tail.len() >= 2 {
            assert(tail[0] == chars@[i as int]);
            assert(tail[1] == chars@[i as int + 1]);
        }
        assert(spec_clean_dots(chars@.skip(i as int)) == spec_clean_inner(chars@.skip(i as int)));
    }
    let mut out = String::new();
    while i < n
        invariant
            i <= n == chars@.len(),
            chars@ == path@,
            spec_clean_dots(path@) == out@ + spec_clean_inner(chars@.skip(i as int)),
        decreases n - i,
    {
        let ghost tail = chars@.skip(i as int);
        proof {
            assert(tail[0] == chars@[i as int]);
            assert(tail.drop_first() =~= chars@.skip(i as int + 1));
            if tail.len() >= 2 {
                assert(tail[1] == chars@[i as int + 1]);
            }
            if tail.len() >= 3 {
                assert(tail[2] == chars@[i as int + 2]);
            }
            if tail.len() >= 2 {
                assert(tail.skip(2) =~= chars@.skip(i as int + 2));
            }
        }
        if n - i > 2 && chars[i] == '/' && chars[i + 1] == '.' && chars[i + 2] == '/' {
            i = i + 2;
        } else if n - i == 2 && chars[i] == '/' && chars[i + 1] == '.' {
            text::push_char(&mut out, '/');
            i = i + 2;
            proof {
                assert(chars@.skip(i as int) =~= Seq::<char>::empty());
                assert(out@ + Seq::<char>::empty() =~= out@);
            }
        } else {
            text::push_char(&mut out, chars[i]);
            i = i + 1;
        }
    }
    proof {
        assert(chars@.skip(n as int) =~= Seq::<char>::empty());
        assert(out@ + Seq::<char>::empty() =~= out@);
    }
    out
}

/// Resolves the middleware directory: an absolute override is used as
/// given; a relative one is joined under the configuration directory; by
/// default it is `<config_dir>/middlewares`. Redundant `.` segments are
/// cleaned. An empty override is an error.
pub fn resolve_middleware_dir(config_dir: &str, flag: Option<&str>) -> (r: Result<String, String>)
    ensures
        match flag {
            Some(f) => if f@.len() == 0 {
                r is Err
            } else {
                r matches Ok(p) && p@ == spec_clean_dots(
                    if spec_is_absolute(f@) {
                        f@
                    } else {
                        spec_join(config_dir@, f@)
                    },
                )
            },
            None => r matches Ok(p) && p@ == spec_clean_dots(
                spec_join(config_dir@, "middlewares"@),
            ),
        },
{
    match flag {
        Some(f) => {
            if f.unicode_len() == 0 {
                return Err(String::from_str("middleware dir: empty path"));
            }
            if f.get_char(0) == '/' {
                Ok(clean_dots(f))
            } else {
                let mut joined = String::new();
                joined.append(config_dir);
                text::push_char(&mut joined, '/');
                joined.append(f);
                proof {
                    assert(joined@ =~= spec_join(config_dir@, f@));
                }
                Ok(clean_dots(joined.as_str()))
            }
        },
        None => {
            let mut joined = String::new();
            joined.append(config_dir);
            text::push_char(&mut joined, '/');
            joined.append("middlewares");
            proof {
                assert(joined@ =~= spec_join(config_dir@, "middlewares"@));
            }
            Ok(clean_dots(joined.as_str()))
        },
    }
}

/// Resolves the working directory from an explicit value: a relative one
/// is joined under the caller's current directory. An empty value is an
/// error; the default directory is the application's concern, since it
/// depends on the host system.
pub fn resolve_workdir(flag: &str, cwd: &str) -> (r: Result<String, String>)
    ensures
        flag@.len() == 0 ==> r is Err,
        flag@.len() > 0 ==> (r matches Ok(p) && p@ == spec_clean_dots(
            if spec_is_absolute(flag@) {
                flag@
            } else {
                spec_join(cwd@, flag@)
            },
        )),
{
    if flag.unicode_len() == 0 {
        return Err(String::from_str("workdir: empty path"));
    }
    if flag.get_char(0) == '/' {
        Ok(clean_dots(flag))
    } else {
        let mut joined = String::new();
        joined.append(cwd);
        text::push_char(&mut joined, '/');
        joined.append(flag);
        proof {
            assert(joined@ =~= spec_join(cwd@, flag@));
        }
        Ok(clean_dots(joined.as_str()))
    }
}

/// The directory holding a path: everything before the last `/`, or `.`
/// when there is none.
pub open spec fn spec_parent_dir(s: Seq<char>) -> Seq<char>
    decreases s.len(),
{
    if s.len() == 0 {
        seq!['.']
    } else if s.last() == '/' {
        s.drop_last()
    } else {
        spec_parent_dir(s.drop_last())
    }
}

/// The directory holding a path.
pub fn parent_dir(path: &str) -> (r: String)
    ensures
        r@ == spec_parent_dir(path@),
{
    let chars = crate::pattern::str_to_chars(path);
    let n = chars.len();
    let mut i: usize = n;
    proof {
        assert(chars@.subrange(0, n as int) =~= path@);
    }
    while i > 0
        invariant
            i <= n == chars@.len(),
            chars@ == path@,
            spec_parent_dir(path@) == spec_parent_dir(path@.subrange(0, i as int)),
        decreases i,
    {
        i = i - 1;
        let ghost win = path@.subrange(0, i as int + 1);
        proof {
            assert(win.last() == path@[i as int]);
            assert(win.drop_last() =~= path@.subrange(0, i as int));
        }
        if chars[i] == '/' {
            let r = text::substring_copy(path, 0, i);
            return r;
        }
    }
    proof {
        assert(path@.subrange(0, 0) =~= Seq::<char>::empty());
        reveal_strlit(".");
        assert("."@ =~= seq!['.']);
    }
    String::from_str(".")
}

/// Resolves both runtime paths from explicit inputs: the working
/// directory from the caller's flag or environment value (relative ones
/// joined under the current directory), and the middleware directory from
/// its override or `<config_dir>/middlewares`, with the configuration
/// directory taken from the configuration path. The application falls
/// back to its platform default for a missing workdir before calling.
pub fn resolve_runtime_paths(workdir: &str, cwd: &str, config_path: &str, middleware_dir: Option<
    &str,
>) -> (r: Result<RuntimePaths, String>)
    ensures
        (r is Err) == (workdir@.len() == 0 || (middleware_dir matches Some(f) && f@.len() == 0)),
        r matches Ok(p) ==> {
            &&& p.workdir@ == spec_clean_dots(
                if spec_is_absolute(workdir@) {
                    workdir@
                } else {
                    spec_join(cwd@, workdir@)
                },
            )
            &&& p.middleware_dir@ == (match middleware_dir {
                Some(f) => spec_clean_dots(
                    if spec_is_absolute(f@) {
                        f@
                    } else {
                        spec_join(spec_parent_dir(config_path@), f@)
                    },
                ),
                None => spec_clean_dots(
                    spec_join(spec_parent_dir(config_path@), "middlewares"@),
                ),
            })
        },
{
    let wd = match resolve_workdir(workdir, cwd) {
        Ok(w) => w,
        Err(e) => {
            return Err(e);
        },
    };
    let config_dir = parent_dir(config_path);
    let md = match resolve_middleware_dir(config_dir.as_str(), middleware_dir) {
        Ok(m) => m,
        Err(e) => {
            return Err(e);
        },
    };
    Ok(RuntimePaths { workdir: wd, middleware_dir: md })
}

} // verus!
