use vstd::prelude::*;
use vstd::string::StrSliceExecFns;
use vstd::string::StringExecFns;

verus! {

/// Index of the last `/` in `p`, or -1 when there is none.
pub open spec fn last_slash(p: Seq<char>) -> int
    decreases p.len(),
{
    if p.len() == 0 {
        -1
    } else if p.last() == '/' {
        p.len() - 1
    } else {
        last_slash(p.drop_last())
    }
}

/// A path is absolute when it starts at the root.
pub open spec fn spec_is_absolute(p: Seq<char>) -> bool {
    p.len() > 0 && p[0] == '/'
}

/// The directory part of a file path: everything before the last `/`; the
/// root when that slash leads; empty when there is no slash at all.
pub open spec fn spec_parent_dir(p: Seq<char>) -> Seq<char> {
    if last_slash(p) == -1 {
        Seq::empty()
    } else if last_slash(p) == 0 {
        seq!['/']
    } else {
        p.subrange(0, last_slash(p))
    }
}

/// Join a relative path onto a directory.
pub open spec fn spec_join(dir: Seq<char>, rel: Seq<char>) -> Seq<char> {
    if dir.len() == 0 {
        rel
    } else if dir.last() == '/' {
        dir + rel
    } else {
        dir + seq!['/'] + rel
    }
}

/// Pure path algebra of import normalization: a leading home shorthand is
/// replaced by the home directory when one is known; a path still relative
/// after that is joined onto the directory of the importing file.
pub open spec fn spec_normalize_import(
    base: Seq<char>,
    import: Seq<char>,
    home: Option<Seq<char>>,
) -> Seq<char> {
    let expanded = if import.len() >= 2 && import[0] == '~' && import[1] == '/' && home is Some {
        spec_join(home->0, import.subrange(2, import.len() as int))
    } else {
        import
    };
    if spec_is_absolute(expanded) {
        expanded
    } else {
        spec_join(spec_parent_dir(base), expanded)
    }
}

/// Index of the last `/` in `s`, if any.
pub fn find_last_slash(s: &str) -> (r: Option<usize>)
    ensures
        match r {
            Some(i) => last_slash(s@) == i && i < s@.len(),
            None => last_slash(s@) == -1,
        },
{
    let n = s.unicode_len();
    let mut best: Option<usize> = None;
    let mut i: usize = 0;
    proof {
        assert(s@.take(0) =~= Seq::<char>::empty());
    }
    while i < n
        invariant
            n == s@.len(),
            0 <= i <= n,
            match best {
                Some(b) => last_slash(s@.take(i as int)) == b && b < i,
                None => last_slash(s@.take(i as int)) == -1,
            },
        decreases n - i,
    {
        proof {
            assert(s@.take(i + 1).drop_last() =~= s@.take(i as int));
            assert(s@.take(i + 1).last() == s@[i as int]);
        }
        if s.get_char(i) == '/' {
            best = Some(i);
        }
        i = i + 1;
    }
    proof {
        assert(s@.take(n as int) =~= s@);
    }
    best
}

/// The directory part of a file path.
pub fn parent_dir(path: &str) -> (r: String)
    ensures
        r@ == spec_parent_dir(path@),
{
    proof {
        reveal_strlit("/");
        reveal_strlit("");
    }
    match find_last_slash(path) {
        None => String::from_str(""),
        Some(0) => String::from_str("/"),
        Some(i) => String::from_str(path.substring_char(0, i)),
    }
}

/// Whether the path starts at the root.
pub fn is_absolute_path(path: &str) -> (r: bool)
    ensures
        r == spec_is_absolute(path@),
{
    path.unicode_len() > 0 && path.get_char(0) == '/'
}

/// Join a relative path onto a directory.
pub fn join_path(dir: &str, rel: &str) -> (r: String)
    ensures
        r@ == spec_join(dir@, rel@),
{
    proof {
        reveal_strlit("/");
    }
    let n = dir.unicode_len();
    if n == 0 {
        String::from_str(rel)
    } else if dir.get_char(n - 1) == '/' {
        String::from_str(dir).concat(rel)
    } else {
        let r = String::from_str(dir).concat("/").concat(rel);
        proof {
            assert(r@ =~= dir@ + seq!['/'] + rel@);
        }
        r
    }
}

/// Normalize an import path against the importing file and the home
/// directory. Pure path algebra: the filesystem is never consulted.
pub fn normalize_import(base_config_path: &str, import_path: &str, home_dir: Option<&str>) -> (r:
    String)
    ensures
        r@ == spec_normalize_import(
            base_config_path@,
            import_path@,
            match home_dir {
                Some(h) => Some(h@),
                None => None,
            },
        ),
{
    let n = import_path.unicode_len();
    let tilde = n >= 2 && import_path.get_char(0) == '~' && import_path.get_char(1) == '/';
    let expanded: String = if tilde && home_dir.is_some() {
        let home = match home_dir {
            Some(h) => h,
            None => "",
        };
        join_path(home, import_path.substring_char(2, n))
    } else {
        String::from_str(import_path)
    };
    if is_absolute_path(expanded.as_str()) {
        expanded
    } else {
        let dir = parent_dir(base_config_path);
        join_path(dir.as_str(), expanded.as_str())
    }
}

/// The fixed search order for an installed configuration file, from the
/// resolved XDG user configuration directory and the home directory: the
/// application directory under the XDG base, the XDG base itself, the
/// application directory under `.config` in the home, the hidden file in the
/// home, and the system-wide directory.
pub open spec fn spec_candidates(
    file_name: Seq<char>,
    xdg_config_home: Option<Seq<char>>,
    home: Option<Seq<char>>,
) -> Seq<Seq<char>> {
    let with_xdg: Seq<Seq<char>> = match xdg_config_home {
        Some(x) => seq![
            spec_join(spec_join(x, "velacritty"@), file_name),
            spec_join(x, file_name),
        ],
        None => Seq::empty(),
    };
    let with_home: Seq<Seq<char>> = match home {
        Some(h) => seq![
            spec_join(spec_join(h, ".config/velacritty"@), file_name),
            spec_join(h, "."@ + file_name),
        ],
        None => Seq::empty(),
    };
    with_xdg + with_home + seq![spec_join("/etc/velacritty"@, file_name)]
}

/// The paths where an installed `velacritty.<suffix>` may live, in probe
/// order; the caller checks which of them exists on disk.
pub fn installed_config_candidates(
    suffix: &str,
    xdg_config_home: Option<&str>,
    home: Option<&str>,
) -> (r: Vec<String>)
    ensures
        r@.map_values(|s: String| s@) == spec_candidates(
            "velacritty."@ + suffix@,
            match xdg_config_home {
                Some(x) => Some(x@),
                None => None,
            },
            match home {
                Some(h) => Some(h@),
                None => None,
            },
        ),
{
    let file_name = String::from_str("velacritty.").concat(suffix);
    proof {
        assert(file_name@ == "velacritty."@ + suffix@);
    }
    let mut out: Vec<String> = Vec::new();
    match xdg_config_home {
        Some(x) => {
            let app_dir = join_path(x, "velacritty");
            out.push(join_path(app_dir.as_str(), file_name.as_str()));
            out.push(join_path(x, file_name.as_str()));
        },
        None => {},
    }
    match home {
        Some(h) => {
            let cfg_dir = join_path(h, ".config/velacritty");
            out.push(join_path(cfg_dir.as_str(), file_name.as_str()));
            let hidden = String::from_str(".").concat(file_name.as_str());
            proof {
                assert(hidden@ == "."@ + file_name@);
            }
            out.push(join_path(h, hidden.as_str()));
        },
        None => {},
    }
    out.push(join_path("/etc/velacritty", file_name.as_str()));
    proof {
        assert(out@.map_values(|s: String| s@) =~= spec_candidates(
            "velacritty."@ + suffix@,
            match xdg_config_home {
                Some(x) => Some(x@),
                None => None,
            },
            match home {
                Some(h) => Some(h@),
                None => None,
            },
        ));
    }
    out
}

} // verus!
